//! The test-generation engine: reachability searches over the machine's
//! topology and the three test generators built on them.

use crate::traits::guarded_run_reaches;
use crate::traits::guarded_step;
use crate::traits::phi_witness_within;
use crate::traits::reachable;
use crate::traits::reachable_within;
use crate::traits::reaches_target_via;
use crate::traits::replay_states;
use crate::traits::route_step;
use crate::traits::run_machine;
use crate::traits::state_enum_closed;
use crate::traits::XMachine;
use vstd::prelude::*;

verus! {

broadcast use vstd::seq_lib::group_seq_properties;

/// A generated test vector for a downstream execution harness.
///
/// Based on the stream X-machine testing method: a suite is constructed by
/// traversing the associated finite automaton, then checked against an
/// implementation by replaying `setup_sequence`, applying `test_input`,
/// comparing the observed output with `expected_output`, and replaying
/// `verification_sequence` to distinguish the resulting state.
#[derive(Debug, PartialEq)]
pub struct TestCase<Input, Output> {
    /// A human-readable identifier for the test scenario.
    pub name: String,
    /// C (state cover): the inputs that reach the state under test.
    pub setup_sequence: Vec<Input>,
    /// Sigma: the input symbol applied to trigger the transition under test.
    pub test_input: Input,
    /// Gamma: the output the processing function is expected to produce.
    pub expected_output: Option<Output>,
    /// W (characterization): the input suffix that distinguishes the final
    /// state, supplied by the model author.
    pub verification_sequence: Vec<Input>,
}

/// The stream X-machine test generator.
pub struct SxMTester;

/// Renders a human-readable label for a generated test. Relies on std's
/// `format!` and `Debug` formatting; the label is descriptive only and
/// nothing is proved about it.
#[verifier::external_body]
fn describe_test<A: core::fmt::Debug, B: core::fmt::Debug>(kind: &str, a: &A, b: &B) -> String {
    format!("{}: {:?} / {:?}", kind, a, b)
}

/// The depth bound of the guard-aware search: exceeding it is a coverage
/// gap, not an error.
pub const MAX_SEARCH_DEPTH: usize = 10;

/// Some entry of the frontier holds the state `u`.
spec fn frontier_has_state<T: XMachine>(fr: Seq<(T::State, Vec<T::Input>)>, u: T::State) -> bool {
    exists|j: int| 0 <= j < fr.len() && (#[trigger] fr[j]).0 == u
}

/// Every frontier entry carries a path of length `level` that reaches its
/// state from an initial state.
spec fn frontier_sound<T: XMachine>(fr: Seq<(T::State, Vec<T::Input>)>, level: int) -> bool {
    forall|k: int|
        0 <= k < fr.len() ==> ((#[trigger] fr[k]).1@.len() == level && reaches_target_via::<T>(
            fr[k].1@,
            fr[k].0,
        ))
}

/// Every state reachable in at most `level` routed steps has been visited.
spec fn visited_covers<T: XMachine>(visited: Seq<T::State>, level: int) -> bool {
    forall|s: T::State| reachable_within::<T>(s, level) ==> visited.contains(s)
}

/// The visited list is duplicate-free, stays inside the state enumeration,
/// and never holds the search target.
spec fn visited_wf<T: XMachine>(visited: Seq<T::State>, target: T::State) -> bool {
    visited.no_duplicates() && (forall|k: int|
        0 <= k < visited.len() ==> T::all_states_spec().contains(#[trigger] visited[k])) && (
    forall|k: int| 0 <= k < visited.len() ==> #[trigger] visited[k] != target)
}

/// Every visited state that no longer waits on the frontier has had all its
/// routed successors visited.
spec fn expanded_closed<T: XMachine>(
    visited: Seq<T::State>,
    fr: Seq<(T::State, Vec<T::Input>)>,
) -> bool {
    forall|k: int, i: T::Input|
        0 <= k < visited.len() && !frontier_has_state::<T>(fr, visited[k]) ==> ((
        #[trigger] route_step::<T>(visited[k], i)) is Some ==> visited.contains(
            route_step::<T>(visited[k], i)->0,
        ))
}

/// The routed successors of the first `upto` frontier entries are visited.
spec fn children_expanded<T: XMachine>(
    fr: Seq<(T::State, Vec<T::Input>)>,
    upto: int,
    visited: Seq<T::State>,
) -> bool {
    forall|j: int, i: T::Input|
        0 <= j < upto ==> ((#[trigger] route_step::<T>(fr[j].0, i)) is Some ==> visited.contains(
            route_step::<T>(fr[j].0, i)->0,
        ))
}

/// The routed successors of `u` under the first `upto` enumerated inputs are
/// visited.
spec fn inputs_expanded<T: XMachine>(
    u: T::State,
    inputs: Seq<T::Input>,
    upto: int,
    visited: Seq<T::State>,
) -> bool {
    forall|m: int|
        0 <= m < upto ==> ((#[trigger] route_step::<T>(u, inputs[m])) is Some ==> visited.contains(
            route_step::<T>(u, inputs[m])->0,
        ))
}

/// Replaying a path from a member of a successor-closed state list cannot
/// leave the list.
proof fn lemma_closed_replay<T: XMachine>(visited: Seq<T::State>, s0: T::State, p: Seq<T::Input>)
    requires
        forall|k: int, i: T::Input|
            0 <= k < visited.len() ==> ((#[trigger] route_step::<T>(visited[k], i)) is Some
                ==> visited.contains(route_step::<T>(visited[k], i)->0)),
        visited.contains(s0),
        replay_states::<T>(s0, p) is Some,
    ensures
        visited.contains(replay_states::<T>(s0, p)->0),
    decreases p.len(),
{
    if p.len() == 0 {
    } else {
        let k = choose|k: int| 0 <= k < visited.len() && visited[k] == s0;
        assert(route_step::<T>(visited[k], p[0]) == route_step::<T>(s0, p[0]));
        let s1 = route_step::<T>(s0, p[0])->0;
        assert(visited.contains(s1));
        lemma_closed_replay::<T>(visited, s1, p.drop_first());
    }
}

/// Replaying a path extended by one input first replays the path, then takes
/// one routed step.
proof fn lemma_replay_snoc<T: XMachine>(s0: T::State, p: Seq<T::Input>, i: T::Input)
    ensures
        replay_states::<T>(s0, p.push(i)) == (match replay_states::<T>(s0, p) {
            Some(u) => route_step::<T>(u, i),
            None => None,
        }),
    decreases p.len(),
{
    if p.len() == 0 {
        assert(p.push(i)[0] == i);
        assert(p.push(i).drop_first() =~= Seq::<T::Input>::empty());
        match route_step::<T>(s0, i) {
            Some(s2) => {
                assert(replay_states::<T>(s2, Seq::<T::Input>::empty()) == Some(s2));
            },
            None => {},
        }
    } else {
        assert(p.push(i)[0] == p[0]);
        assert(p.push(i).drop_first() =~= p.drop_first().push(i));
        match route_step::<T>(s0, p[0]) {
            Some(s2) => {
                lemma_replay_snoc::<T>(s2, p.drop_first(), i);
            },
            None => {},
        }
    }
}

/// A duplicate-free sequence whose members all occur in `u` is no longer
/// than `u`.
proof fn lemma_distinct_members_bound<A>(v: Seq<A>, u: Seq<A>)
    requires
        v.no_duplicates(),
        forall|k: int| 0 <= k < v.len() ==> u.contains(#[trigger] v[k]),
    ensures
        v.len() <= u.len(),
{
    broadcast use vstd::seq_lib::seq_to_set_is_finite;

    v.unique_seq_to_set();
    u.lemma_cardinality_of_set();
    assert forall|a: A| v.to_set().contains(a) implies u.to_set().contains(a) by {
        let k = choose|k: int| 0 <= k < v.len() && v[k] == a;
        assert(u.contains(a));
    }
    assert(v.to_set().subset_of(u.to_set()));
    vstd::set_lib::lemma_len_subset(v.to_set(), u.to_set());
}

/// Every frontier entry of the guard-aware search carries a path of length
/// `level` whose guarded replay from an initial configuration ends exactly
/// in the entry's state and memory.
spec fn g_frontier_sound<T: XMachine>(
    fr: Seq<(T::State, T::Store, Vec<T::Input>)>,
    level: int,
) -> bool {
    forall|k: int|
        0 <= k < fr.len() ==> ((#[trigger] fr[k]).2@.len() == level && guarded_run_reaches::<T>(
            fr[k].2@,
            fr[k].0,
            fr[k].1,
        ))
}

/// Every guarded run of length `level` from any initial configuration is
/// represented by some frontier entry.
spec fn g_frontier_complete<T: XMachine>(
    fr: Seq<(T::State, T::Store, Vec<T::Input>)>,
    level: int,
) -> bool {
    forall|j: int, p: Seq<T::Input>|
        0 <= j < T::initial_states_spec().len() && p.len() == level && (#[trigger] run_machine::<T>(
            T::initial_states_spec()[j],
            T::initial_store_spec(),
            p,
        )) is Some ==> g_run_in_frontier::<T>(fr, j, p)
}

/// Some frontier entry carries the path `p` together with the configuration
/// its guarded replay from the `j`-th initial state produces.
spec fn g_run_in_frontier<T: XMachine>(
    fr: Seq<(T::State, T::Store, Vec<T::Input>)>,
    j: int,
    p: Seq<T::Input>,
) -> bool {
    exists|k: int|
        0 <= k < fr.len() && (#[trigger] fr[k]).2@ == p && run_machine::<T>(
            T::initial_states_spec()[j],
            T::initial_store_spec(),
            p,
        ) == Some((fr[k].0, fr[k].1))
}

/// No guarded run of fewer than `bound` symbols ends in `target` with a
/// memory accepted by the guard of `phi` for `input`.
spec fn g_no_witness_below<T: XMachine>(
    target: T::State,
    phi: T::Phi,
    input: T::Input,
    bound: int,
) -> bool {
    forall|p: Seq<T::Input>, m: T::Store|
        p.len() < bound && #[trigger] guarded_run_reaches::<T>(p, target, m) ==> !T::guard_spec(
            phi,
            m,
            input,
        )
}

/// The guarded successor of the frontier entry `e` under input `i`, if any,
/// is represented in `next` with the extended path.
spec fn g_child_in<T: XMachine>(
    e: (T::State, T::Store, Vec<T::Input>),
    i: T::Input,
    next: Seq<(T::State, T::Store, Vec<T::Input>)>,
) -> bool {
    guarded_step::<T>(e.0, e.1, i) matches Some(sm) ==> exists|kn: int|
        0 <= kn < next.len() && (#[trigger] next[kn]).2@ == e.2@.push(i) && next[kn].0 == sm.0
            && next[kn].1 == sm.1
}

/// A guarded replay of a path extended by one input first replays the path,
/// then takes one guarded step.
proof fn lemma_run_snoc<T: XMachine>(s0: T::State, m0: T::Store, p: Seq<T::Input>, i: T::Input)
    ensures
        run_machine::<T>(s0, m0, p.push(i)) == (match run_machine::<T>(s0, m0, p) {
            Some(sm) => guarded_step::<T>(sm.0, sm.1, i),
            None => None,
        }),
    decreases p.len(),
{
    if p.len() == 0 {
        assert(p.push(i)[0] == i);
        assert(p.push(i).drop_first() =~= Seq::<T::Input>::empty());
        match guarded_step::<T>(s0, m0, i) {
            Some(sm) => {
                assert(run_machine::<T>(sm.0, sm.1, Seq::<T::Input>::empty()) == Some(sm));
            },
            None => {},
        }
    } else {
        assert(p.push(i)[0] == p[0]);
        assert(p.push(i).drop_first() =~= p.drop_first().push(i));
        match guarded_step::<T>(s0, m0, p[0]) {
            Some(sm) => {
                lemma_run_snoc::<T>(sm.0, sm.1, p.drop_first(), i);
            },
            None => {},
        }
    }
}

/// A setup sequence that reaches `s` from an initial state and is of
/// minimal length among all such sequences.
pub open spec fn is_min_setup<T: XMachine>(setup: Seq<T::Input>, s: T::State) -> bool {
    reaches_target_via::<T>(setup, s) && !reachable_within::<T>(s, setup.len() - 1)
}

/// The robustness obligations among the first `a` enumerated states: every
/// (state, input) pair, in enumeration order, whose state is reachable and
/// routes no processing function for the input.
pub open spec fn robustness_pairs<T: XMachine>(
    states: Seq<T::State>,
    inputs: Seq<T::Input>,
    a: int,
) -> Seq<(T::State, T::Input)>
    decreases a,
{
    if a <= 0 {
        Seq::empty()
    } else {
        robustness_pairs::<T>(states, inputs, a - 1) + (if reachable::<T>(states[a - 1]) {
            robustness_pairs_for_state::<T>(states[a - 1], inputs, inputs.len() as int)
        } else {
            Seq::empty()
        })
    }
}

/// The robustness obligations of the state `s` among the first `b`
/// enumerated inputs.
pub open spec fn robustness_pairs_for_state<T: XMachine>(
    s: T::State,
    inputs: Seq<T::Input>,
    b: int,
) -> Seq<(T::State, T::Input)>
    decreases b,
{
    if b <= 0 {
        Seq::empty()
    } else {
        robustness_pairs_for_state::<T>(s, inputs, b - 1) + (if T::routed_phi_spec(
            s,
            inputs[b - 1],
        ) is None {
            seq![(s, inputs[b - 1])]
        } else {
            Seq::empty()
        })
    }
}

/// What a robustness test asserts for the obligation `(s, i)`: reach `s` by
/// a shortest setup, apply the undefined input, expect no output and no
/// verification suffix.
pub open spec fn robustness_test_ok<T: XMachine>(
    t: TestCase<T::Input, T::Output>,
    s: T::State,
    i: T::Input,
) -> bool {
    t.test_input == i && t.expected_output is None && t.verification_sequence@.len() == 0
        && is_min_setup::<T>(t.setup_sequence@, s)
}

/// The tests correspond pointwise, in order, to the obligations.
pub open spec fn tests_match_robustness<T: XMachine>(
    tests: Seq<TestCase<T::Input, T::Output>>,
    pairs: Seq<(T::State, T::Input)>,
) -> bool {
    tests.len() == pairs.len() && (forall|j: int|
        0 <= j < pairs.len() ==> robustness_test_ok::<T>(#[trigger] tests[j], pairs[j].0, pairs[j].1))
}

/// The whole robustness suite of the machine: one test per obligation, in
/// enumeration order of states, then of inputs.
pub open spec fn robustness_suite_ok<T: XMachine>(r: Seq<TestCase<T::Input, T::Output>>) -> bool {
    tests_match_robustness::<T>(
        r,
        robustness_pairs::<T>(
            T::all_states_spec(),
            T::all_inputs_spec(),
            T::all_states_spec().len() as int,
        ),
    )
}

/// The conformance obligations among the first `a` enumerated states: every
/// (state, input) pair, in enumeration order, whose state is reachable, and
/// which routes a processing function with a defined destination.
pub open spec fn logic_pairs<T: XMachine>(
    states: Seq<T::State>,
    inputs: Seq<T::Input>,
    a: int,
) -> Seq<(T::State, T::Input)>
    decreases a,
{
    if a <= 0 {
        Seq::empty()
    } else {
        logic_pairs::<T>(states, inputs, a - 1) + (if reachable::<T>(states[a - 1]) {
            logic_pairs_for_state::<T>(states[a - 1], inputs, inputs.len() as int)
        } else {
            Seq::empty()
        })
    }
}

/// The conformance obligations of the state `s` among the first `b`
/// enumerated inputs.
pub open spec fn logic_pairs_for_state<T: XMachine>(
    s: T::State,
    inputs: Seq<T::Input>,
    b: int,
) -> Seq<(T::State, T::Input)>
    decreases b,
{
    if b <= 0 {
        Seq::empty()
    } else {
        logic_pairs_for_state::<T>(s, inputs, b - 1) + (if T::routed_phi_spec(s, inputs[b - 1])
            is Some && T::transition_spec(s, T::routed_phi_spec(s, inputs[b - 1])->0) is Some {
            seq![(s, inputs[b - 1])]
        } else {
            Seq::empty()
        })
    }
}

/// What a conformance test asserts for the obligation `(s, i)`: reach `s` by
/// a shortest setup, apply `i`, expect the output that the routed function
/// produces against a fresh initial memory, then distinguish the destination
/// state with the caller-supplied characterization suffix.
///
/// The expected output is deliberately computed against a fresh memory, not
/// against the memory the setup would produce; for memory-sensitive guards
/// the guard-accurate expectation comes from the phi-coverage suite instead.
pub open spec fn logic_test_ok<T: XMachine, F: Fn(T::State) -> Vec<T::Input>>(
    f: F,
    t: TestCase<T::Input, T::Output>,
    s: T::State,
    i: T::Input,
) -> bool {
    let phi = T::routed_phi_spec(s, i)->0;
    let dest = T::transition_spec(s, phi)->0;
    t.test_input == i && is_min_setup::<T>(t.setup_sequence@, s) && t.expected_output == (
    if T::guard_spec(phi, T::initial_store_spec(), i) {
        T::step_output_spec(phi, T::initial_store_spec(), i)
    } else {
        Option::<T::Output>::None
    }) && call_ensures(f, (dest,), t.verification_sequence)
}

/// The tests correspond pointwise, in order, to the conformance obligations.
pub open spec fn tests_match_logic<T: XMachine, F: Fn(T::State) -> Vec<T::Input>>(
    f: F,
    tests: Seq<TestCase<T::Input, T::Output>>,
    pairs: Seq<(T::State, T::Input)>,
) -> bool {
    tests.len() == pairs.len() && (forall|j: int|
        0 <= j < pairs.len() ==> logic_test_ok::<T, F>(f, #[trigger] tests[j], pairs[j].0, pairs[j].1))
}

/// The whole conformance suite of the machine: one test per obligation, in
/// enumeration order of states, then of inputs.
pub open spec fn logic_suite_ok<T: XMachine, F: Fn(T::State) -> Vec<T::Input>>(
    f: F,
    r: Seq<TestCase<T::Input, T::Output>>,
) -> bool {
    tests_match_logic::<T, F>(
        f,
        r,
        logic_pairs::<T>(
            T::all_states_spec(),
            T::all_inputs_spec(),
            T::all_states_spec().len() as int,
        ),
    )
}

/// The data-path obligations among the first `a` enumerated states: every
/// (state, input) pair, in enumeration order, which routes a processing
/// function with a defined destination and whose guard has a witness within
/// the depth bound.
pub open spec fn phi_pairs<T: XMachine>(
    states: Seq<T::State>,
    inputs: Seq<T::Input>,
    a: int,
) -> Seq<(T::State, T::Input)>
    decreases a,
{
    if a <= 0 {
        Seq::empty()
    } else {
        phi_pairs::<T>(states, inputs, a - 1) + phi_pairs_for_state::<T>(
            states[a - 1],
            inputs,
            inputs.len() as int,
        )
    }
}

/// The data-path obligations of the state `s` among the first `b` enumerated
/// inputs.
pub open spec fn phi_pairs_for_state<T: XMachine>(
    s: T::State,
    inputs: Seq<T::Input>,
    b: int,
) -> Seq<(T::State, T::Input)>
    decreases b,
{
    if b <= 0 {
        Seq::empty()
    } else {
        phi_pairs_for_state::<T>(s, inputs, b - 1) + (if T::routed_phi_spec(s, inputs[b - 1])
            is Some && T::transition_spec(s, T::routed_phi_spec(s, inputs[b - 1])->0) is Some
            && phi_witness_within::<T>(
            s,
            T::routed_phi_spec(s, inputs[b - 1])->0,
            inputs[b - 1],
            MAX_SEARCH_DEPTH as int,
        ) {
            seq![(s, inputs[b - 1])]
        } else {
            Seq::empty()
        })
    }
}

/// What a data-path test asserts for the obligation `(s, i)`: a setup within
/// the depth bound whose guarded replay produces a memory accepted by the
/// routed function's guard, the output that function produces against that
/// very memory, and the characterization suffix of the destination state.
pub open spec fn phi_test_ok<T: XMachine, F: Fn(T::State) -> Vec<T::Input>>(
    f: F,
    t: TestCase<T::Input, T::Output>,
    s: T::State,
    i: T::Input,
) -> bool {
    let phi = T::routed_phi_spec(s, i)->0;
    let dest = T::transition_spec(s, phi)->0;
    t.test_input == i && t.setup_sequence@.len() <= MAX_SEARCH_DEPTH && (exists|m: T::Store|
        #[trigger] guarded_run_reaches::<T>(t.setup_sequence@, s, m) && T::guard_spec(phi, m, i)
            && t.expected_output == T::step_output_spec(phi, m, i)) && call_ensures(
        f,
        (dest,),
        t.verification_sequence,
    )
}

/// The tests correspond pointwise, in order, to the data-path obligations.
pub open spec fn tests_match_phi<T: XMachine, F: Fn(T::State) -> Vec<T::Input>>(
    f: F,
    tests: Seq<TestCase<T::Input, T::Output>>,
    pairs: Seq<(T::State, T::Input)>,
) -> bool {
    tests.len() == pairs.len() && (forall|j: int|
        0 <= j < pairs.len() ==> phi_test_ok::<T, F>(f, #[trigger] tests[j], pairs[j].0, pairs[j].1))
}

/// The whole data-path suite of the machine: one test per obligation, in
/// enumeration order of states, then of inputs.
pub open spec fn phi_suite_ok<T: XMachine, F: Fn(T::State) -> Vec<T::Input>>(
    f: F,
    r: Seq<TestCase<T::Input, T::Output>>,
) -> bool {
    tests_match_phi::<T, F>(
        f,
        r,
        phi_pairs::<T>(
            T::all_states_spec(),
            T::all_inputs_spec(),
            T::all_states_spec().len() as int,
        ),
    )
}

/// Two shortest setups to the same state have the same length.
pub proof fn lemma_min_setup_unique_len<T: XMachine>(
    p1: Seq<T::Input>,
    p2: Seq<T::Input>,
    s: T::State,
)
    requires
        is_min_setup::<T>(p1, s),
        is_min_setup::<T>(p2, s),
    ensures
        p1.len() == p2.len(),
{
    if p1.len() < p2.len() {
        assert(p1.len() <= p2.len() - 1 && reaches_target_via::<T>(p1, s));
        assert(reachable_within::<T>(s, p2.len() - 1));
        assert(false);
    }
    if p2.len() < p1.len() {
        assert(p2.len() <= p1.len() - 1 && reaches_target_via::<T>(p2, s));
        assert(reachable_within::<T>(s, p1.len() - 1));
        assert(false);
    }
}

/// Determinism of the robustness generator: two suites generated from the
/// same unchanged model cover the same obligations in the same order and
/// agree on every test input, expected output and verification suffix; their
/// setup sequences have equal (minimal) lengths.
pub proof fn lemma_robustness_suite_deterministic<T: XMachine>(
    r1: Seq<TestCase<T::Input, T::Output>>,
    r2: Seq<TestCase<T::Input, T::Output>>,
)
    requires
        robustness_suite_ok::<T>(r1),
        robustness_suite_ok::<T>(r2),
    ensures
        r1.len() == r2.len(),
        forall|j: int|
            0 <= j < r1.len() ==> ((#[trigger] r1[j]).test_input == r2[j].test_input && r1[j].expected_output
                == r2[j].expected_output && r1[j].verification_sequence@
                == r2[j].verification_sequence@ && r1[j].setup_sequence@.len()
                == r2[j].setup_sequence@.len()),
{
    let pairs = robustness_pairs::<T>(
        T::all_states_spec(),
        T::all_inputs_spec(),
        T::all_states_spec().len() as int,
    );
    assert forall|j: int|
        0 <= j < r1.len() implies ((#[trigger] r1[j]).test_input == r2[j].test_input && r1[j].expected_output
        == r2[j].expected_output && r1[j].verification_sequence@ == r2[j].verification_sequence@
        && r1[j].setup_sequence@.len() == r2[j].setup_sequence@.len()) by {
        assert(robustness_test_ok::<T>(r1[j], pairs[j].0, pairs[j].1));
        assert(robustness_test_ok::<T>(r2[j], pairs[j].0, pairs[j].1));
        lemma_min_setup_unique_len::<T>(r1[j].setup_sequence@, r2[j].setup_sequence@, pairs[j].0);
        assert(r1[j].verification_sequence@ =~= r2[j].verification_sequence@);
    }
}

/// Determinism of the conformance generator, for a deterministic
/// characterization function: two suites generated from the same unchanged
/// model cover the same obligations in the same order and agree on every
/// test input, expected output and verification suffix; their setup
/// sequences have equal (minimal) lengths.
pub proof fn lemma_logic_suite_deterministic<T: XMachine, F: Fn(T::State) -> Vec<T::Input>>(
    f: F,
    r1: Seq<TestCase<T::Input, T::Output>>,
    r2: Seq<TestCase<T::Input, T::Output>>,
)
    requires
        logic_suite_ok::<T, F>(f, r1),
        logic_suite_ok::<T, F>(f, r2),
        forall|s: T::State, v1: Vec<T::Input>, v2: Vec<T::Input>|
            call_ensures(f, (s,), v1) && call_ensures(f, (s,), v2) ==> v1@ == v2@,
    ensures
        r1.len() == r2.len(),
        forall|j: int|
            0 <= j < r1.len() ==> ((#[trigger] r1[j]).test_input == r2[j].test_input && r1[j].expected_output
                == r2[j].expected_output && r1[j].verification_sequence@
                == r2[j].verification_sequence@ && r1[j].setup_sequence@.len()
                == r2[j].setup_sequence@.len()),
{
    let pairs = logic_pairs::<T>(
        T::all_states_spec(),
        T::all_inputs_spec(),
        T::all_states_spec().len() as int,
    );
    assert forall|j: int|
        0 <= j < r1.len() implies ((#[trigger] r1[j]).test_input == r2[j].test_input && r1[j].expected_output
        == r2[j].expected_output && r1[j].verification_sequence@ == r2[j].verification_sequence@
        && r1[j].setup_sequence@.len() == r2[j].setup_sequence@.len()) by {
        assert(logic_test_ok::<T, F>(f, r1[j], pairs[j].0, pairs[j].1));
        assert(logic_test_ok::<T, F>(f, r2[j], pairs[j].0, pairs[j].1));
        lemma_min_setup_unique_len::<T>(r1[j].setup_sequence@, r2[j].setup_sequence@, pairs[j].0);
    }
}

/// Determinism of the data-path generator's obligations, for a
/// deterministic characterization function: two suites generated from the
/// same unchanged model cover the same obligations in the same order and
/// agree on every test input and verification suffix. The setup sequences
/// and expected outputs are pinned only up to the choice of witness among
/// the guarded runs within the depth bound.
pub proof fn lemma_phi_suite_obligations_deterministic<T: XMachine, F: Fn(T::State) -> Vec<T::Input>>(
    f: F,
    r1: Seq<TestCase<T::Input, T::Output>>,
    r2: Seq<TestCase<T::Input, T::Output>>,
)
    requires
        phi_suite_ok::<T, F>(f, r1),
        phi_suite_ok::<T, F>(f, r2),
        forall|s: T::State, v1: Vec<T::Input>, v2: Vec<T::Input>|
            call_ensures(f, (s,), v1) && call_ensures(f, (s,), v2) ==> v1@ == v2@,
    ensures
        r1.len() == r2.len(),
        forall|j: int|
            0 <= j < r1.len() ==> ((#[trigger] r1[j]).test_input == r2[j].test_input
                && r1[j].verification_sequence@ == r2[j].verification_sequence@),
{
    let pairs = phi_pairs::<T>(
        T::all_states_spec(),
        T::all_inputs_spec(),
        T::all_states_spec().len() as int,
    );
    assert forall|j: int|
        0 <= j < r1.len() implies ((#[trigger] r1[j]).test_input == r2[j].test_input
        && r1[j].verification_sequence@ == r2[j].verification_sequence@) by {
        assert(phi_test_ok::<T, F>(f, r1[j], pairs[j].0, pairs[j].1));
        assert(phi_test_ok::<T, F>(f, r2[j], pairs[j].0, pairs[j].1));
    }
}

/// Decides whether `s` occurs in `v`.
fn contains_state<T: XMachine>(v: &Vec<T::State>, s: &T::State) -> (r: bool)
    ensures
        r <==> v@.contains(*s),
{
    let mut k: usize = 0;
    while k < v.len()
        invariant
            k <= v.len(),
            forall|j: int| 0 <= j < k ==> v@[j] != *s,
        decreases v.len() - k,
    {
        if T::state_eq(&v[k], s) {
            assert(v@[k as int] == *s);
            return true;
        }
        k += 1;
    }
    false
}

/// An independent copy of an input sequence.
fn clone_inputs<T: XMachine>(v: &Vec<T::Input>) -> (r: Vec<T::Input>)
    ensures
        r@ == v@,
{
    let mut r: Vec<T::Input> = Vec::new();
    let mut k: usize = 0;
    while k < v.len()
        invariant
            k <= v.len(),
            r@ =~= v@.take(k as int),
        decreases v.len() - k,
    {
        r.push(T::clone_input(&v[k]));
        assert(r@ =~= v@.take(k + 1 as int));
        k += 1;
    }
    assert(r@ =~= v@);
    r
}

impl SxMTester {
    /// Plain reachability search (state cover): multi-source breadth-first
    /// search over the topology alone, seeded from every initial state,
    /// ignoring guards and memory.
    ///
    /// Returns a shortest input sequence that reaches `target` from an
    /// initial state under the routed dispatch, or `None` exactly when no
    /// sequence of enumerated inputs reaches it.
    pub fn find_path_to_state<T: XMachine>(target: T::State) -> (r: Option<Vec<T::Input>>)
        requires
            state_enum_closed::<T>(),
        ensures
            match r {
                Some(path) => reaches_target_via::<T>(path@, target) && !reachable_within::<T>(
                    target,
                    path@.len() - 1,
                ),
                None => !reachable::<T>(target),
            },
    {
        let init = T::initial_states();
        let inputs = T::all_inputs();
        let mut visited: Vec<T::State> = Vec::new();
        let mut frontier: Vec<(T::State, Vec<T::Input>)> = Vec::new();

        // Seed the search simultaneously from every initial state.
        let mut si: usize = 0;
        while si < init.len()
            invariant
                state_enum_closed::<T>(),
                init@ == T::initial_states_spec(),
                si <= init.len(),
                visited_wf::<T>(visited@, target),
                frontier_sound::<T>(frontier@, 0),
                forall|k: int|
                    0 <= k < visited@.len() ==> frontier_has_state::<T>(
                        frontier@,
                        #[trigger] visited@[k],
                    ),
                forall|k: int|
                    0 <= k < frontier@.len() ==> visited@.contains((#[trigger] frontier@[k]).0),
                forall|j: int| 0 <= j < si ==> visited@.contains(#[trigger] init@[j]),
            decreases init.len() - si,
        {
            let s = &init[si];
            if T::state_eq(s, &target) {
                let empty_path: Vec<T::Input> = Vec::new();
                proof {
                    assert(replay_states::<T>(init@[si as int], empty_path@) == Some(target));
                    assert(reaches_target_via::<T>(empty_path@, target));
                }
                return Some(empty_path);
            }
            let ghost old_vis = visited@;
            let ghost old_fr = frontier@;
            if !contains_state::<T>(&visited, s) {
                let seed_path: Vec<T::Input> = Vec::new();
                visited.push(T::clone_state(s));
                frontier.push((T::clone_state(s), seed_path));
                proof {
                    assert(replay_states::<T>(init@[si as int], Seq::<T::Input>::empty()) == Some(
                        init@[si as int],
                    ));
                    assert((frontier@[frontier@.len() - 1]).0 == init@[si as int]);
                    assert(reaches_target_via::<T>(
                        (frontier@[frontier@.len() - 1]).1@,
                        (frontier@[frontier@.len() - 1]).0,
                    ));
                    assert forall|k: int| 0 <= k < visited@.len() implies frontier_has_state::<T>(
                        frontier@,
                        visited@[k],
                    ) by {
                        if k < old_vis.len() {
                            let j = choose|j: int|
                                0 <= j < old_fr.len() && (#[trigger] old_fr[j]).0 == old_vis[k];
                            assert((frontier@[j]).0 == visited@[k]);
                        } else {
                            assert((frontier@[frontier@.len() - 1]).0 == visited@[k]);
                        }
                    }
                }
            } else {
                proof {
                    assert(visited@.contains(init@[si as int]));
                }
            }
            si += 1;
        }

        let ghost mut level: int = 0;

        proof {
            // Every state reachable in zero steps is an initial state, and
            // every initial state has been seeded.
            assert forall|s: T::State| reachable_within::<T>(s, 0) implies visited@.contains(
                s,
            ) by {
                let p = choose|p: Seq<T::Input>|
                    p.len() <= 0 && reaches_target_via::<T>(p, s);
                let j = choose|j: int|
                    0 <= j < T::initial_states_spec().len() && replay_states::<T>(
                        T::initial_states_spec()[j],
                        p,
                    ) == Some(s);
                assert(s == T::initial_states_spec()[j]);
            }
            assert(expanded_closed::<T>(visited@, frontier@));
            lemma_distinct_members_bound::<T::State>(visited@, T::all_states_spec());
        }

        while frontier.len() > 0
            invariant
                state_enum_closed::<T>(),
                init@ == T::initial_states_spec(),
                inputs@ == T::all_inputs_spec(),
                0 <= level,
                visited_wf::<T>(visited@, target),
                visited@.len() <= T::all_states_spec().len(),
                frontier_sound::<T>(frontier@, level),
                forall|k: int|
                    0 <= k < frontier@.len() ==> visited@.contains((#[trigger] frontier@[k]).0),
                visited_covers::<T>(visited@, level),
                expanded_closed::<T>(visited@, frontier@),
            decreases T::all_states_spec().len() - visited@.len(), frontier@.len(),
        {
            let ghost vis0 = visited@;
            let mut next: Vec<(T::State, Vec<T::Input>)> = Vec::new();
            let mut f: usize = 0;
            while f < frontier.len()
                invariant
                    state_enum_closed::<T>(),
                    init@ == T::initial_states_spec(),
                    inputs@ == T::all_inputs_spec(),
                    0 <= level,
                    f <= frontier.len(),
                    visited_wf::<T>(visited@, target),
                    frontier_sound::<T>(frontier@, level),
                    frontier_sound::<T>(next@, level + 1),
                    forall|k: int|
                        0 <= k < frontier@.len() ==> visited@.contains(
                            (#[trigger] frontier@[k]).0,
                        ),
                    forall|k: int|
                        0 <= k < next@.len() ==> visited@.contains((#[trigger] next@[k]).0),
                    visited_covers::<T>(visited@, level),
                    vis0.is_prefix_of(visited@),
                    visited@.len() == vis0.len() + next@.len(),
                    visited_covers::<T>(vis0, level),
                    expanded_closed::<T>(vis0, frontier@),
                    children_expanded::<T>(frontier@, f as int, visited@),
                    forall|k: int|
                        vis0.len() <= k < visited@.len() ==> frontier_has_state::<T>(
                            next@,
                            #[trigger] visited@[k],
                        ),
                decreases frontier.len() - f,
            {
                let mut b: usize = 0;
                while b < inputs.len()
                    invariant
                        state_enum_closed::<T>(),
                        init@ == T::initial_states_spec(),
                        inputs@ == T::all_inputs_spec(),
                        0 <= level,
                        f < frontier.len(),
                        b <= inputs.len(),
                        visited_wf::<T>(visited@, target),
                        frontier_sound::<T>(frontier@, level),
                        frontier_sound::<T>(next@, level + 1),
                        forall|k: int|
                            0 <= k < frontier@.len() ==> visited@.contains(
                                (#[trigger] frontier@[k]).0,
                            ),
                        forall|k: int|
                            0 <= k < next@.len() ==> visited@.contains((#[trigger] next@[k]).0),
                        visited_covers::<T>(visited@, level),
                        vis0.is_prefix_of(visited@),
                        visited@.len() == vis0.len() + next@.len(),
                        visited_covers::<T>(vis0, level),
                        expanded_closed::<T>(vis0, frontier@),
                        children_expanded::<T>(frontier@, f as int, visited@),
                        inputs_expanded::<T>((frontier@[f as int]).0, inputs@, b as int, visited@),
                        forall|k: int|
                            vis0.len() <= k < visited@.len() ==> frontier_has_state::<T>(
                                next@,
                                #[trigger] visited@[k],
                            ),
                    decreases inputs.len() - b,
                {
                    let input = &inputs[b];
                    let step_to = match T::get_phi_for_input(&frontier[f].0, input) {
                        Some(phi) => T::next_state(&frontier[f].0, &phi),
                        None => None,
                    };
                    proof {
                        assert(T::all_inputs_spec().contains(inputs@[b as int]));
                        assert(step_to == route_step::<T>(
                            (frontier@[f as int]).0,
                            inputs@[b as int],
                        ));
                    }
                    match step_to {
                        Some(next_state) => {
                            if T::state_eq(&next_state, &target) {
                                let mut full_path = clone_inputs::<T>(&frontier[f].1);
                                full_path.push(T::clone_input(input));
                                proof {
                                    let u = (frontier@[f as int]).0;
                                    let pp = (frontier@[f as int]).1@;
                                    let j = choose|j: int|
                                        0 <= j < T::initial_states_spec().len() && replay_states::<
                                            T,
                                        >(T::initial_states_spec()[j], pp) == Some(u);
                                    lemma_replay_snoc::<T>(
                                        T::initial_states_spec()[j],
                                        pp,
                                        inputs@[b as int],
                                    );
                                    assert(replay_states::<T>(
                                        T::initial_states_spec()[j],
                                        full_path@,
                                    ) == Some(target));
                                    assert(reaches_target_via::<T>(full_path@, target));
                                    // A shorter path would have put the
                                    // target in the visited list already.
                                    if reachable_within::<T>(target, full_path@.len() - 1) {
                                        assert(visited@.contains(target));
                                        let k = choose|k: int|
                                            0 <= k < visited@.len() && visited@[k] == target;
                                        assert(false);
                                    }
                                }
                                return Some(full_path);
                            }
                            if !contains_state::<T>(&visited, &next_state) {
                                let mut new_path = clone_inputs::<T>(&frontier[f].1);
                                new_path.push(T::clone_input(input));
                                proof {
                                    let u = (frontier@[f as int]).0;
                                    let pp = (frontier@[f as int]).1@;
                                    let j = choose|j: int|
                                        0 <= j < T::initial_states_spec().len() && replay_states::<
                                            T,
                                        >(T::initial_states_spec()[j], pp) == Some(u);
                                    lemma_replay_snoc::<T>(
                                        T::initial_states_spec()[j],
                                        pp,
                                        inputs@[b as int],
                                    );
                                    assert(replay_states::<T>(
                                        T::initial_states_spec()[j],
                                        new_path@,
                                    ) == Some(next_state));
                                    assert(reaches_target_via::<T>(new_path@, next_state));
                                }
                                let ghost old_vis = visited@;
                                let ghost old_next = next@;
                                visited.push(T::clone_state(&next_state));
                                next.push((next_state, new_path));
                                proof {
                                    assert(visited@.no_duplicates());
                                    assert((next@[next@.len() - 1]).0 == visited@[visited@.len()
                                        - 1]);
                                    assert forall|k: int|
                                        vis0.len() <= k < visited@.len() implies frontier_has_state::<
                                        T,
                                    >(next@, visited@[k]) by {
                                        if k < old_vis.len() {
                                            let j = choose|j: int|
                                                0 <= j < old_next.len() && (
                                                #[trigger] old_next[j]).0 == old_vis[k];
                                            assert((next@[j]).0 == visited@[k]);
                                        } else {
                                            assert((next@[next@.len() - 1]).0 == visited@[k]);
                                        }
                                    }
                                }
                            }
                        },
                        None => {},
                    }
                    b += 1;
                }
                proof {
                    // Generalize from the enumerated inputs to every input:
                    // a routed step is only defined for enumerated inputs.
                    let u = (frontier@[f as int]).0;
                    assert forall|i: T::Input| (#[trigger] route_step::<T>(u, i))
                        is Some implies visited@.contains(route_step::<T>(u, i)->0) by {
                        assert(T::all_inputs_spec().contains(i));
                        let m = choose|m: int| 0 <= m < inputs@.len() && inputs@[m] == i;
                        assert(route_step::<T>(u, inputs@[m]) is Some);
                        assert(visited@.contains(route_step::<T>(u, inputs@[m])->0));
                    }
                    assert(children_expanded::<T>(frontier@, f + 1 as int, visited@));
                }
                f += 1;
            }
            proof {
                // The next level covers one more step of reachability.
                assert forall|s: T::State| reachable_within::<T>(s, level + 1) implies
                    visited@.contains(s) by {
                    let p = choose|p: Seq<T::Input>|
                        p.len() <= level + 1 && reaches_target_via::<T>(p, s);
                    let j = choose|j: int|
                        0 <= j < T::initial_states_spec().len() && replay_states::<T>(
                            T::initial_states_spec()[j],
                            p,
                        ) == Some(s);
                    if p.len() <= level {
                        assert(reachable_within::<T>(s, level));
                    } else {
                        let pp = p.drop_last();
                        let last = p.last();
                        assert(p =~= pp.push(last));
                        lemma_replay_snoc::<T>(T::initial_states_spec()[j], pp, last);
                        let u = replay_states::<T>(T::initial_states_spec()[j], pp)->0;
                        assert(route_step::<T>(u, last) == Some(s));
                        assert(reaches_target_via::<T>(pp, u));
                        assert(reachable_within::<T>(u, level));
                        assert(vis0.contains(u));
                        if frontier_has_state::<T>(frontier@, u) {
                            let fj = choose|fj: int|
                                0 <= fj < frontier@.len() && (frontier@[fj]).0 == u;
                            assert(route_step::<T>((frontier@[fj]).0, last) is Some);
                            assert(visited@.contains(s));
                        } else {
                            let k = choose|k: int| 0 <= k < vis0.len() && vis0[k] == u;
                            assert(route_step::<T>(vis0[k], last) is Some);
                            assert(vis0.contains(s));
                            let ks = choose|ks: int| 0 <= ks < vis0.len() && vis0[ks] == s;
                            assert(visited@[ks] == s);
                            assert(visited@.contains(s));
                        }
                    }
                }
                // Every visited state off the new frontier has been expanded.
                assert forall|k: int, i: T::Input|
                    0 <= k < visited@.len() && !frontier_has_state::<T>(next@, visited@[k]) && (
                    #[trigger] route_step::<T>(visited@[k], i)) is Some implies visited@.contains(
                    route_step::<T>(visited@[k], i)->0,
                ) by {
                    let u = visited@[k];
                    if k < vis0.len() {
                        if frontier_has_state::<T>(frontier@, u) {
                            let fj = choose|fj: int|
                                0 <= fj < frontier@.len() && (frontier@[fj]).0 == u;
                            assert(route_step::<T>((frontier@[fj]).0, i) is Some);
                        } else {
                            assert(vis0[k] == u);
                            assert(vis0.contains(route_step::<T>(vis0[k], i)->0));
                            let kc = choose|kc: int|
                                0 <= kc < vis0.len() && vis0[kc] == route_step::<T>(u, i)->0;
                            assert(visited@[kc] == route_step::<T>(u, i)->0);
                        }
                    } else {
                        assert(frontier_has_state::<T>(next@, visited@[k]));
                    }
                }
                // The visited list stays within the state enumeration.
                lemma_distinct_members_bound::<T::State>(visited@, T::all_states_spec());
            }
            frontier = next;
            proof {
                level = level + 1;
            }
        }
        proof {
            // An empty frontier means the visited list is closed under the
            // routed step; the unvisited target is therefore unreachable.
            if reachable::<T>(target) {
                let p = choose|p: Seq<T::Input>| reaches_target_via::<T>(p, target);
                let j = choose|j: int|
                    0 <= j < T::initial_states_spec().len() && replay_states::<T>(
                        T::initial_states_spec()[j],
                        p,
                    ) == Some(target);
                let s0 = T::initial_states_spec()[j];
                assert(replay_states::<T>(s0, Seq::<T::Input>::empty()) == Some(s0));
                assert(reaches_target_via::<T>(Seq::<T::Input>::empty(), s0));
                assert(reachable_within::<T>(s0, level));
                assert(visited@.contains(s0));
                assert forall|k: int, i: T::Input|
                    0 <= k < visited@.len() implies ((#[trigger] route_step::<T>(visited@[k], i))
                    is Some ==> visited@.contains(route_step::<T>(visited@[k], i)->0)) by {
                    assert(!frontier_has_state::<T>(frontier@, visited@[k]));
                }
                lemma_closed_replay::<T>(visited@, s0, p);
                let k = choose|k: int| 0 <= k < visited@.len() && visited@[k] == target;
                assert(false);
            }
        }
        None
    }

    /// Guard-aware reachability search (data-path discovery): breadth-first
    /// search over (state, memory, path) triples, seeded from every initial
    /// configuration and replaying the real guarded functions. A state may be
    /// revisited with different memory on purpose; the depth bound alone
    /// guarantees termination.
    ///
    /// Returns an input sequence together with the memory its guarded replay
    /// produces, such that applying `target_phi` with `trigger_input` to that
    /// memory would succeed — or `None` exactly when no sequence within the
    /// depth bound leads to such a memory in `target_state`.
    pub fn find_path_to_satisfy_phi<T: XMachine>(
        target_state: T::State,
        target_phi: T::Phi,
        trigger_input: &T::Input,
    ) -> (r: Option<(Vec<T::Input>, T::Store)>)
        ensures
            match r {
                Some(pm) => pm.0@.len() <= MAX_SEARCH_DEPTH && guarded_run_reaches::<T>(
                    pm.0@,
                    target_state,
                    pm.1,
                ) && T::guard_spec(target_phi, pm.1, *trigger_input),
                None => !phi_witness_within::<T>(
                    target_state,
                    target_phi,
                    *trigger_input,
                    MAX_SEARCH_DEPTH as int,
                ),
            },
    {
        let init = T::initial_states();
        let inputs = T::all_inputs();
        let mut frontier: Vec<(T::State, T::Store, Vec<T::Input>)> = Vec::new();
        let mut si: usize = 0;
        while si < init.len()
            invariant
                init@ == T::initial_states_spec(),
                si <= init.len(),
                frontier@.len() == si,
                forall|k: int|
                    0 <= k < si ==> ((#[trigger] frontier@[k]).2@.len() == 0 && frontier@[k].0
                        == init@[k] && frontier@[k].1 == T::initial_store_spec()),
            decreases init.len() - si,
        {
            let empty_path: Vec<T::Input> = Vec::new();
            frontier.push((T::clone_state(&init[si]), T::initial_store(), empty_path));
            si += 1;
        }
        proof {
            assert forall|k: int| 0 <= k < frontier@.len() implies ((#[trigger] frontier@[k]).2@.len()
                == 0 && guarded_run_reaches::<T>(frontier@[k].2@, frontier@[k].0, frontier@[k].1)) by {
                assert(run_machine::<T>(
                    T::initial_states_spec()[k],
                    T::initial_store_spec(),
                    frontier@[k].2@,
                ) == Some((frontier@[k].0, frontier@[k].1)));
            }
            assert(g_frontier_sound::<T>(frontier@, 0));
            assert forall|j: int, p: Seq<T::Input>|
                0 <= j < T::initial_states_spec().len() && p.len() == 0 && (
                #[trigger] run_machine::<T>(
                    T::initial_states_spec()[j],
                    T::initial_store_spec(),
                    p,
                )) is Some implies g_run_in_frontier::<T>(frontier@, j, p) by {
                assert(p =~= Seq::<T::Input>::empty());
                assert((frontier@[j]).2@ =~= p);
                assert(run_machine::<T>(T::initial_states_spec()[j], T::initial_store_spec(), p)
                    == Some((frontier@[j].0, frontier@[j].1)));
            }
            assert(g_frontier_complete::<T>(frontier@, 0));
        }
        let mut depth: usize = 0;
        while depth <= MAX_SEARCH_DEPTH
            invariant
                init@ == T::initial_states_spec(),
                inputs@ == T::all_inputs_spec(),
                depth <= MAX_SEARCH_DEPTH + 1,
                depth <= MAX_SEARCH_DEPTH ==> g_frontier_sound::<T>(frontier@, depth as int),
                depth <= MAX_SEARCH_DEPTH ==> g_frontier_complete::<T>(frontier@, depth as int),
                g_no_witness_below::<T>(target_state, target_phi, *trigger_input, depth as int),
            decreases MAX_SEARCH_DEPTH + 1 - depth,
        {
            // Check phase: speculatively try the target processing function
            // at every frontier configuration in the target state.
            let mut c: usize = 0;
            while c < frontier.len()
                invariant
                    init@ == T::initial_states_spec(),
                    inputs@ == T::all_inputs_spec(),
                    depth <= MAX_SEARCH_DEPTH,
                    c <= frontier.len(),
                    g_frontier_sound::<T>(frontier@, depth as int),
                    g_frontier_complete::<T>(frontier@, depth as int),
                    g_no_witness_below::<T>(target_state, target_phi, *trigger_input, depth as int),
                    forall|k: int|
                        0 <= k < c ==> ((#[trigger] frontier@[k]).0 == target_state
                            ==> !T::guard_spec(target_phi, frontier@[k].1, *trigger_input)),
                decreases frontier.len() - c,
            {
                if T::state_eq(&frontier[c].0, &target_state) {
                    let mut check_mem = T::clone_store(&frontier[c].1);
                    match T::execute_phi(&target_phi, &mut check_mem, trigger_input) {
                        Ok(_) => {
                            let path = clone_inputs::<T>(&frontier[c].2);
                            let mem = T::clone_store(&frontier[c].1);
                            proof {
                                assert(guarded_run_reaches::<T>(path@, target_state, mem));
                            }
                            return Some((path, mem));
                        },
                        Err(_) => {},
                    }
                }
                c += 1;
            }
            proof {
                // Every guarded run of the just-checked length that reaches
                // the target state has a rejected memory.
                assert forall|p: Seq<T::Input>, m: T::Store|
                    p.len() < depth + 1 && #[trigger] guarded_run_reaches::<T>(
                        p,
                        target_state,
                        m,
                    ) implies !T::guard_spec(target_phi, m, *trigger_input) by {
                    if p.len() == depth {
                        let j = choose|j: int|
                            0 <= j < T::initial_states_spec().len() && run_machine::<T>(
                                T::initial_states_spec()[j],
                                T::initial_store_spec(),
                                p,
                            ) == Some((target_state, m));
                        assert(g_run_in_frontier::<T>(frontier@, j, p));
                        let k = choose|k: int|
                            0 <= k < frontier@.len() && (#[trigger] frontier@[k]).2@ == p
                                && run_machine::<T>(
                                T::initial_states_spec()[j],
                                T::initial_store_spec(),
                                p,
                            ) == Some((frontier@[k].0, frontier@[k].1));
                        assert(frontier@[k].0 == target_state && frontier@[k].1 == m);
                    }
                }
            }
            if depth < MAX_SEARCH_DEPTH {
                let mut next: Vec<(T::State, T::Store, Vec<T::Input>)> = Vec::new();
                let mut f: usize = 0;
                while f < frontier.len()
                    invariant
                        init@ == T::initial_states_spec(),
                        inputs@ == T::all_inputs_spec(),
                        depth < MAX_SEARCH_DEPTH,
                        f <= frontier.len(),
                        g_frontier_sound::<T>(frontier@, depth as int),
                        g_frontier_complete::<T>(frontier@, depth as int),
                        g_no_witness_below::<T>(
                            target_state,
                            target_phi,
                            *trigger_input,
                            depth + 1 as int,
                        ),
                        g_frontier_sound::<T>(next@, depth + 1 as int),
                        forall|k: int, i: T::Input|
                            0 <= k < f ==> #[trigger] g_child_in::<T>(frontier@[k], i, next@),
                    decreases frontier.len() - f,
                {
                    let mut b: usize = 0;
                    while b < inputs.len()
                        invariant
                            init@ == T::initial_states_spec(),
                            inputs@ == T::all_inputs_spec(),
                            depth < MAX_SEARCH_DEPTH,
                            f < frontier.len(),
                            b <= inputs.len(),
                            g_frontier_sound::<T>(frontier@, depth as int),
                            g_frontier_complete::<T>(frontier@, depth as int),
                            g_no_witness_below::<T>(
                                target_state,
                                target_phi,
                                *trigger_input,
                                depth + 1 as int,
                            ),
                            g_frontier_sound::<T>(next@, depth + 1 as int),
                            forall|k: int, i: T::Input|
                                0 <= k < f ==> #[trigger] g_child_in::<T>(frontier@[k], i, next@),
                            forall|m: int|
                                0 <= m < b ==> g_child_in::<T>(
                                    frontier@[f as int],
                                    #[trigger] inputs@[m],
                                    next@,
                                ),
                        decreases inputs.len() - b,
                    {
                        let input = &inputs[b];
                        match T::get_phi_for_input(&frontier[f].0, input) {
                            Some(phi) => {
                                let mut next_mem = T::clone_store(&frontier[f].1);
                                match T::execute_phi(&phi, &mut next_mem, input) {
                                    Ok(_) => {
                                        match T::next_state(&frontier[f].0, &phi) {
                                            Some(ns) => {
                                                let mut new_path = clone_inputs::<T>(
                                                    &frontier[f].2,
                                                );
                                                new_path.push(T::clone_input(input));
                                                proof {
                                                    assert(T::all_inputs_spec().contains(
                                                        inputs@[b as int],
                                                    ));
                                                    assert(guarded_step::<T>(
                                                        (frontier@[f as int]).0,
                                                        (frontier@[f as int]).1,
                                                        inputs@[b as int],
                                                    ) == Some((ns, next_mem)));
                                                    let j = choose|j: int|
                                                        0 <= j < T::initial_states_spec().len()
                                                            && run_machine::<T>(
                                                            T::initial_states_spec()[j],
                                                            T::initial_store_spec(),
                                                            (frontier@[f as int]).2@,
                                                        ) == Some((
                                                            (frontier@[f as int]).0,
                                                            (frontier@[f as int]).1,
                                                        ));
                                                    lemma_run_snoc::<T>(
                                                        T::initial_states_spec()[j],
                                                        T::initial_store_spec(),
                                                        (frontier@[f as int]).2@,
                                                        inputs@[b as int],
                                                    );
                                                    assert(run_machine::<T>(
                                                        T::initial_states_spec()[j],
                                                        T::initial_store_spec(),
                                                        new_path@,
                                                    ) == Some((ns, next_mem)));
                                                    assert(guarded_run_reaches::<T>(
                                                        new_path@,
                                                        ns,
                                                        next_mem,
                                                    ));
                                                }
                                                let ghost old_next = next@;
                                                next.push((ns, next_mem, new_path));
                                                proof {
                                                    assert forall|k: int, i: T::Input|
                                                        0 <= k < f implies #[trigger] g_child_in::<
                                                        T,
                                                    >(frontier@[k], i, next@) by {
                                                        assert(g_child_in::<T>(
                                                            frontier@[k],
                                                            i,
                                                            old_next,
                                                        ));
                                                        if guarded_step::<T>(
                                                            (frontier@[k]).0,
                                                            (frontier@[k]).1,
                                                            i,
                                                        ) is Some {
                                                            let sm = guarded_step::<T>(
                                                                (frontier@[k]).0,
                                                                (frontier@[k]).1,
                                                                i,
                                                            )->0;
                                                            let kn = choose|kn: int|
                                                                0 <= kn < old_next.len() && (
                                                                #[trigger] old_next[kn]).2@ == (
                                                                frontier@[k]).2@.push(i)
                                                                    && old_next[kn].0 == sm.0
                                                                    && old_next[kn].1 == sm.1;
                                                            assert((next@[kn]).2@ == (
                                                            frontier@[k]).2@.push(i));
                                                        }
                                                    }
                                                    assert forall|m: int|
                                                        0 <= m < b + 1 implies g_child_in::<T>(
                                                        frontier@[f as int],
                                                        #[trigger] inputs@[m],
                                                        next@,
                                                    ) by {
                                                        if m < b {
                                                            assert(g_child_in::<T>(
                                                                frontier@[f as int],
                                                                inputs@[m],
                                                                old_next,
                                                            ));
                                                            if guarded_step::<T>(
                                                                (frontier@[f as int]).0,
                                                                (frontier@[f as int]).1,
                                                                inputs@[m],
                                                            ) is Some {
                                                                let sm = guarded_step::<T>(
                                                                    (frontier@[f as int]).0,
                                                                    (frontier@[f as int]).1,
                                                                    inputs@[m],
                                                                )->0;
                                                                let kn = choose|kn: int|
                                                                    0 <= kn < old_next.len() && (
                                                                    #[trigger] old_next[kn]).2@ == (
                                                                    frontier@[f as int]).2@.push(
                                                                        inputs@[m],
                                                                    ) && old_next[kn].0 == sm.0
                                                                        && old_next[kn].1 == sm.1;
                                                                assert((next@[kn]).2@ == (
                                                                frontier@[f as int]).2@.push(
                                                                    inputs@[m],
                                                                ));
                                                            }
                                                        } else {
                                                            assert((next@[next@.len() - 1]).2@
                                                                == (frontier@[f as int]).2@.push(
                                                                inputs@[m],
                                                            ));
                                                        }
                                                    }
                                                }
                                            },
                                            None => {},
                                        }
                                    },
                                    Err(_) => {},
                                }
                            },
                            None => {},
                        }
                        proof {
                            assert(T::all_inputs_spec().contains(inputs@[b as int]));
                        }
                        b += 1;
                    }
                    proof {
                        // Generalize from the enumerated inputs to every
                        // input: a guarded step needs an enumerated input.
                        assert forall|i: T::Input| g_child_in::<T>(
                            frontier@[f as int],
                            i,
                            next@,
                        ) by {
                            if guarded_step::<T>(
                                (frontier@[f as int]).0,
                                (frontier@[f as int]).1,
                                i,
                            ) is Some {
                                assert(T::all_inputs_spec().contains(i));
                                let m = choose|m: int| 0 <= m < inputs@.len() && inputs@[m] == i;
                                assert(g_child_in::<T>(frontier@[f as int], inputs@[m], next@));
                            }
                        }
                    }
                    f += 1;
                }
                proof {
                    // The expanded frontier is complete one level deeper.
                    assert forall|j: int, p: Seq<T::Input>|
                        0 <= j < T::initial_states_spec().len() && p.len() == depth + 1 && (
                        #[trigger] run_machine::<T>(
                            T::initial_states_spec()[j],
                            T::initial_store_spec(),
                            p,
                        )) is Some implies g_run_in_frontier::<T>(next@, j, p) by {
                        let pp = p.drop_last();
                        let last = p.last();
                        assert(p =~= pp.push(last));
                        lemma_run_snoc::<T>(
                            T::initial_states_spec()[j],
                            T::initial_store_spec(),
                            pp,
                            last,
                        );
                        assert(g_run_in_frontier::<T>(frontier@, j, pp));
                        let k = choose|k: int|
                            0 <= k < frontier@.len() && (#[trigger] frontier@[k]).2@ == pp
                                && run_machine::<T>(
                                T::initial_states_spec()[j],
                                T::initial_store_spec(),
                                pp,
                            ) == Some((frontier@[k].0, frontier@[k].1));
                        assert(g_child_in::<T>(frontier@[k], last, next@));
                        let sm = guarded_step::<T>((frontier@[k]).0, (frontier@[k]).1, last)->0;
                        let kn = choose|kn: int|
                            0 <= kn < next@.len() && (#[trigger] next@[kn]).2@ == (
                            frontier@[k]).2@.push(last) && next@[kn].0 == sm.0 && next@[kn].1
                                == sm.1;
                        assert((next@[kn]).2@ == p);
                        assert(run_machine::<T>(
                            T::initial_states_spec()[j],
                            T::initial_store_spec(),
                            p,
                        ) == Some((next@[kn].0, next@[kn].1)));
                    }
                    assert(g_frontier_complete::<T>(next@, depth + 1 as int));
                }
                frontier = next;
            }
            depth += 1;
        }
        proof {
            if phi_witness_within::<T>(
                target_state,
                target_phi,
                *trigger_input,
                MAX_SEARCH_DEPTH as int,
            ) {
                let (p, m) = choose|p: Seq<T::Input>, m: T::Store|
                    p.len() <= MAX_SEARCH_DEPTH && #[trigger] guarded_run_reaches::<T>(
                        p,
                        target_state,
                        m,
                    ) && T::guard_spec(target_phi, m, *trigger_input);
                assert(p.len() < depth);
                assert(false);
            }
        }
        None
    }

    /// Generates conformance tests (the W-method): for every reachable state
    /// and every input whose routed processing function has a defined
    /// destination, one test that replays a shortest setup to the state,
    /// applies the input, compares the output computed against a fresh
    /// initial memory, and verifies the destination state with the
    /// caller-supplied characterization suffixes (the external W-set).
    pub fn generate_logic_tests<T: XMachine, F: Fn(T::State) -> Vec<T::Input>>(
        distinguishing_sequences: F,
    ) -> (r: Vec<TestCase<T::Input, T::Output>>)
        requires
            state_enum_closed::<T>(),
            forall|s: T::State| call_requires(distinguishing_sequences, (s,)),
        ensures
            logic_suite_ok::<T, F>(distinguishing_sequences, r@),
    {
        let states = T::all_states();
        let inputs = T::all_inputs();
        let mut tests: Vec<TestCase<T::Input, T::Output>> = Vec::new();
        let mut a: usize = 0;
        while a < states.len()
            invariant
                state_enum_closed::<T>(),
                forall|s: T::State| call_requires(distinguishing_sequences, (s,)),
                states@ == T::all_states_spec(),
                inputs@ == T::all_inputs_spec(),
                a <= states.len(),
                tests_match_logic::<T, F>(
                    distinguishing_sequences,
                    tests@,
                    logic_pairs::<T>(states@, inputs@, a as int),
                ),
            decreases states.len() - a,
        {
            let ghost base = logic_pairs::<T>(states@, inputs@, a as int);
            match Self::find_path_to_state::<T>(T::clone_state(&states[a])) {
                Some(path) => {
                    proof {
                        assert(reachable::<T>(states@[a as int]));
                    }
                    let mut b: usize = 0;
                    while b < inputs.len()
                        invariant
                            state_enum_closed::<T>(),
                            forall|s: T::State| call_requires(distinguishing_sequences, (s,)),
                            states@ == T::all_states_spec(),
                            inputs@ == T::all_inputs_spec(),
                            a < states.len(),
                            b <= inputs.len(),
                            is_min_setup::<T>(path@, states@[a as int]),
                            base == logic_pairs::<T>(states@, inputs@, a as int),
                            tests_match_logic::<T, F>(
                                distinguishing_sequences,
                                tests@,
                                base + logic_pairs_for_state::<T>(
                                    states@[a as int],
                                    inputs@,
                                    b as int,
                                ),
                            ),
                        decreases inputs.len() - b,
                    {
                        let ghost pairs_b = base + logic_pairs_for_state::<T>(
                            states@[a as int],
                            inputs@,
                            b as int,
                        );
                        let mut emitted = false;
                        match T::get_phi_for_input(&states[a], &inputs[b]) {
                            Some(phi) => {
                                match T::next_state(&states[a], &phi) {
                                    Some(expected_next_state) => {
                                        let verify_seq = distinguishing_sequences(
                                            T::clone_state(&expected_next_state),
                                        );
                                        let mut dummy_mem = T::initial_store();
                                        let expected_out = match T::execute_phi(
                                            &phi,
                                            &mut dummy_mem,
                                            &inputs[b],
                                        ) {
                                            Ok(o) => o,
                                            Err(_) => None,
                                        };
                                        let t = TestCase {
                                            name: describe_test(
                                                "Logic Verify",
                                                &states[a],
                                                &inputs[b],
                                            ),
                                            setup_sequence: clone_inputs::<T>(&path),
                                            test_input: T::clone_input(&inputs[b]),
                                            expected_output: expected_out,
                                            verification_sequence: verify_seq,
                                        };
                                        tests.push(t);
                                        emitted = true;
                                        proof {
                                            let single = seq![
                                                (states@[a as int], inputs@[b as int]),
                                            ];
                                            assert(logic_pairs_for_state::<T>(
                                                states@[a as int],
                                                inputs@,
                                                b + 1 as int,
                                            ) == logic_pairs_for_state::<T>(
                                                states@[a as int],
                                                inputs@,
                                                b as int,
                                            ) + single);
                                            assert(base + logic_pairs_for_state::<T>(
                                                states@[a as int],
                                                inputs@,
                                                b + 1 as int,
                                            ) =~= pairs_b + single);
                                            assert(logic_test_ok::<T, F>(
                                                distinguishing_sequences,
                                                tests@[tests@.len() - 1],
                                                states@[a as int],
                                                inputs@[b as int],
                                            ));
                                        }
                                    },
                                    None => {},
                                }
                            },
                            None => {},
                        }
                        if !emitted {
                            proof {
                                assert(logic_pairs_for_state::<T>(
                                    states@[a as int],
                                    inputs@,
                                    b + 1 as int,
                                ) =~= logic_pairs_for_state::<T>(
                                    states@[a as int],
                                    inputs@,
                                    b as int,
                                ));
                            }
                        }
                        b += 1;
                    }
                    proof {
                        assert(logic_pairs::<T>(states@, inputs@, a + 1 as int) == base
                            + logic_pairs_for_state::<T>(
                            states@[a as int],
                            inputs@,
                            inputs@.len() as int,
                        ));
                    }
                },
                None => {
                    proof {
                        assert(logic_pairs::<T>(states@, inputs@, a + 1 as int) =~= base);
                    }
                },
            }
            a += 1;
        }
        tests
    }

    /// Generates data-path coverage tests: for every (state, input) pair
    /// with a routed processing function, searches for a concrete setup whose
    /// guarded replay produces a memory satisfying the function's guard, and
    /// emits a test whose expected output is the actual result of executing
    /// the function against that memory. A pair with no witness within the
    /// depth bound is an uncoverable obligation and is skipped, never an
    /// error.
    pub fn generate_phi_coverage_tests<T: XMachine, F: Fn(T::State) -> Vec<T::Input>>(
        distinguishing_sequences: F,
    ) -> (r: Vec<TestCase<T::Input, T::Output>>)
        requires
            forall|s: T::State| call_requires(distinguishing_sequences, (s,)),
        ensures
            phi_suite_ok::<T, F>(distinguishing_sequences, r@),
    {
        let states = T::all_states();
        let inputs = T::all_inputs();
        let mut tests: Vec<TestCase<T::Input, T::Output>> = Vec::new();
        let mut a: usize = 0;
        while a < states.len()
            invariant
                forall|s: T::State| call_requires(distinguishing_sequences, (s,)),
                states@ == T::all_states_spec(),
                inputs@ == T::all_inputs_spec(),
                a <= states.len(),
                tests_match_phi::<T, F>(
                    distinguishing_sequences,
                    tests@,
                    phi_pairs::<T>(states@, inputs@, a as int),
                ),
            decreases states.len() - a,
        {
            let ghost base = phi_pairs::<T>(states@, inputs@, a as int);
            let mut b: usize = 0;
            while b < inputs.len()
                invariant
                    forall|s: T::State| call_requires(distinguishing_sequences, (s,)),
                    states@ == T::all_states_spec(),
                    inputs@ == T::all_inputs_spec(),
                    a < states.len(),
                    b <= inputs.len(),
                    base == phi_pairs::<T>(states@, inputs@, a as int),
                    tests_match_phi::<T, F>(
                        distinguishing_sequences,
                        tests@,
                        base + phi_pairs_for_state::<T>(states@[a as int], inputs@, b as int),
                    ),
                decreases inputs.len() - b,
            {
                let ghost pairs_b = base + phi_pairs_for_state::<T>(
                    states@[a as int],
                    inputs@,
                    b as int,
                );
                let mut emitted = false;
                match T::get_phi_for_input(&states[a], &inputs[b]) {
                    Some(target_phi) => {
                        match T::next_state(&states[a], &target_phi) {
                            Some(next_state) => {
                                match Self::find_path_to_satisfy_phi::<T>(
                                    T::clone_state(&states[a]),
                                    T::clone_phi(&target_phi),
                                    &inputs[b],
                                ) {
                                    Some(found) => {
                                        let (setup_path, resulting_memory) = found;
                                        let mut test_mem = T::clone_store(&resulting_memory);
                                        let expected_output = match T::execute_phi(
                                            &target_phi,
                                            &mut test_mem,
                                            &inputs[b],
                                        ) {
                                            Ok(o) => o,
                                            Err(_) => None,
                                        };
                                        let verify_seq = distinguishing_sequences(
                                            T::clone_state(&next_state),
                                        );
                                        let t = TestCase {
                                            name: describe_test(
                                                "Phi Verify",
                                                &target_phi,
                                                &setup_path,
                                            ),
                                            setup_sequence: setup_path,
                                            test_input: T::clone_input(&inputs[b]),
                                            expected_output,
                                            verification_sequence: verify_seq,
                                        };
                                        tests.push(t);
                                        emitted = true;
                                        proof {
                                            let s = states@[a as int];
                                            let i = inputs@[b as int];
                                            let t0 = tests@[tests@.len() - 1];
                                            assert(guarded_run_reaches::<T>(
                                                t0.setup_sequence@,
                                                s,
                                                resulting_memory,
                                            ));
                                            assert(phi_witness_within::<T>(
                                                s,
                                                T::routed_phi_spec(s, i)->0,
                                                i,
                                                MAX_SEARCH_DEPTH as int,
                                            ));
                                            let single = seq![(s, i)];
                                            assert(phi_pairs_for_state::<T>(
                                                s,
                                                inputs@,
                                                b + 1 as int,
                                            ) == phi_pairs_for_state::<T>(s, inputs@, b as int)
                                                + single);
                                            assert(base + phi_pairs_for_state::<T>(
                                                s,
                                                inputs@,
                                                b + 1 as int,
                                            ) =~= pairs_b + single);
                                            assert(phi_test_ok::<T, F>(
                                                distinguishing_sequences,
                                                t0,
                                                s,
                                                i,
                                            ));
                                        }
                                    },
                                    None => {
                                        proof {
                                            assert(!phi_witness_within::<T>(
                                                states@[a as int],
                                                T::routed_phi_spec(
                                                    states@[a as int],
                                                    inputs@[b as int],
                                                )->0,
                                                inputs@[b as int],
                                                MAX_SEARCH_DEPTH as int,
                                            ));
                                        }
                                    },
                                }
                            },
                            None => {},
                        }
                    },
                    None => {},
                }
                if !emitted {
                    proof {
                        assert(phi_pairs_for_state::<T>(states@[a as int], inputs@, b + 1 as int)
                            =~= phi_pairs_for_state::<T>(states@[a as int], inputs@, b as int));
                    }
                }
                b += 1;
            }
            proof {
                assert(phi_pairs::<T>(states@, inputs@, a + 1 as int) == base
                    + phi_pairs_for_state::<T>(states@[a as int], inputs@, inputs@.len() as int));
            }
            a += 1;
        }
        tests
    }

    /// Generates input-completeness tests: for every reachable state and
    /// every enumerated input with no routed processing function, one test
    /// asserting that the machine safely rejects the input — no output, no
    /// verification suffix. Proves totality of input handling across the
    /// full alphabet.
    pub fn generate_robustness_tests<T: XMachine>() -> (r: Vec<TestCase<T::Input, T::Output>>)
        requires
            state_enum_closed::<T>(),
        ensures
            robustness_suite_ok::<T>(r@),
    {
        let states = T::all_states();
        let inputs = T::all_inputs();
        let mut tests: Vec<TestCase<T::Input, T::Output>> = Vec::new();
        let mut a: usize = 0;
        while a < states.len()
            invariant
                state_enum_closed::<T>(),
                states@ == T::all_states_spec(),
                inputs@ == T::all_inputs_spec(),
                a <= states.len(),
                tests_match_robustness::<T>(
                    tests@,
                    robustness_pairs::<T>(states@, inputs@, a as int),
                ),
            decreases states.len() - a,
        {
            let ghost base = robustness_pairs::<T>(states@, inputs@, a as int);
            match Self::find_path_to_state::<T>(T::clone_state(&states[a])) {
                Some(path) => {
                    proof {
                        assert(reachable::<T>(states@[a as int]));
                    }
                    let mut b: usize = 0;
                    while b < inputs.len()
                        invariant
                            state_enum_closed::<T>(),
                            states@ == T::all_states_spec(),
                            inputs@ == T::all_inputs_spec(),
                            a < states.len(),
                            b <= inputs.len(),
                            is_min_setup::<T>(path@, states@[a as int]),
                            base == robustness_pairs::<T>(states@, inputs@, a as int),
                            tests_match_robustness::<T>(
                                tests@,
                                base + robustness_pairs_for_state::<T>(
                                    states@[a as int],
                                    inputs@,
                                    b as int,
                                ),
                            ),
                        decreases inputs.len() - b,
                    {
                        let ghost pairs_b = base + robustness_pairs_for_state::<T>(
                            states@[a as int],
                            inputs@,
                            b as int,
                        );
                        match T::get_phi_for_input(&states[a], &inputs[b]) {
                            Some(_) => {
                                proof {
                                    assert(robustness_pairs_for_state::<T>(
                                        states@[a as int],
                                        inputs@,
                                        b + 1 as int,
                                    ) =~= robustness_pairs_for_state::<T>(
                                        states@[a as int],
                                        inputs@,
                                        b as int,
                                    ));
                                }
                            },
                            None => {
                                let t = TestCase {
                                    name: describe_test("Robustness", &states[a], &inputs[b]),
                                    setup_sequence: clone_inputs::<T>(&path),
                                    test_input: T::clone_input(&inputs[b]),
                                    expected_output: None,
                                    verification_sequence: Vec::new(),
                                };
                                tests.push(t);
                                proof {
                                    let single = seq![
                                        (states@[a as int], inputs@[b as int]),
                                    ];
                                    assert(robustness_pairs_for_state::<T>(
                                        states@[a as int],
                                        inputs@,
                                        b + 1 as int,
                                    ) == robustness_pairs_for_state::<T>(
                                        states@[a as int],
                                        inputs@,
                                        b as int,
                                    ) + single);
                                    assert(base + robustness_pairs_for_state::<T>(
                                        states@[a as int],
                                        inputs@,
                                        b + 1 as int,
                                    ) =~= pairs_b + single);
                                    assert(robustness_test_ok::<T>(
                                        tests@[tests@.len() - 1],
                                        states@[a as int],
                                        inputs@[b as int],
                                    ));
                                }
                            },
                        }
                        b += 1;
                    }
                    proof {
                        assert(robustness_pairs::<T>(states@, inputs@, a + 1 as int) == base
                            + robustness_pairs_for_state::<T>(
                            states@[a as int],
                            inputs@,
                            inputs@.len() as int,
                        ));
                    }
                },
                None => {
                    proof {
                        assert(robustness_pairs::<T>(states@, inputs@, a + 1 as int) =~= base);
                    }
                },
            }
            a += 1;
        }
        tests
    }
}

} // verus!
