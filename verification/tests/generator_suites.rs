// The three generated suites for the keypad model, checked against values
// worked out by hand from the machine definition.

use sxm::machines::Digicode;
use sxm::machines::DigicodeInputAlphabet as In;
use sxm::machines::DigicodeOutputAlphabet as Out;
use sxm::machines::DigicodePhi;
use sxm::machines::DigicodeState;
use sxm::SxMTester;
use sxm::XMachine;

fn identifier_map(state: DigicodeState) -> Vec<In> {
    match state {
        DigicodeState::Ready => vec![In::Digit(1)],
        DigicodeState::CodeEntered => vec![In::DoorCloses],
        DigicodeState::Accepting => vec![In::OkEnter],
    }
}

#[test]
fn state_cover_paths_are_shortest() {
    // Plain reachability search: shortest witness paths, in enumeration
    // order of inputs and of initial states.
    let to_ready = SxMTester::find_path_to_state::<Digicode>(DigicodeState::Ready);
    assert_eq!(to_ready, Some(vec![]));
    let to_accepting = SxMTester::find_path_to_state::<Digicode>(DigicodeState::Accepting);
    assert_eq!(to_accepting, Some(vec![In::Digit(0)]));
    let to_entered = SxMTester::find_path_to_state::<Digicode>(DigicodeState::CodeEntered);
    assert_eq!(to_entered, Some(vec![In::Digit(0), In::OkEnter]));
}

#[test]
fn guard_aware_search_discovers_the_code() {
    // Only the exact code satisfies the finish guard, so the witness must be
    // the three matching digits, never a shorter or mismatched setup.
    let found = SxMTester::find_path_to_satisfy_phi::<Digicode>(
        DigicodeState::Accepting,
        DigicodePhi::Finish,
        &In::OkEnter,
    );
    let (path, mem) = found.expect("a witness for the finish guard exists");
    assert_eq!(path, vec![In::Digit(4), In::Digit(9), In::Digit(2)]);
    assert_eq!(mem.entered_len, 3);
    assert_eq!((mem.entered_0, mem.entered_1, mem.entered_2), (4, 9, 2));
}

#[test]
fn guard_aware_search_reports_exhaustion() {
    // No run within the depth bound reaches the ready state with three
    // digits accumulated, so the ignore guard has no witness there.
    let found = SxMTester::find_path_to_satisfy_phi::<Digicode>(
        DigicodeState::Ready,
        DigicodePhi::Ignore,
        &In::Digit(0),
    );
    assert!(found.is_none());
}

#[test]
fn robustness_suite_covers_every_undefined_input() {
    let tests = SxMTester::generate_robustness_tests::<Digicode>();
    // Ready and Accepting reject the door-closed signal; CodeEntered rejects
    // the enter key and every digit.
    assert_eq!(tests.len(), 13);

    assert_eq!(tests[0].test_input, In::DoorCloses);
    assert_eq!(tests[0].setup_sequence, Vec::<In>::new());
    assert_eq!(tests[1].test_input, In::DoorCloses);
    assert_eq!(tests[1].setup_sequence, vec![In::Digit(0)]);
    assert_eq!(tests[2].test_input, In::OkEnter);
    assert_eq!(tests[2].setup_sequence, vec![In::Digit(0), In::OkEnter]);
    for d in 0..10u8 {
        let t = &tests[3 + d as usize];
        assert_eq!(t.test_input, In::Digit(d));
        assert_eq!(t.setup_sequence, vec![In::Digit(0), In::OkEnter]);
    }
    for t in &tests {
        assert_eq!(t.expected_output, None);
        assert!(t.verification_sequence.is_empty());
    }
}

#[test]
fn logic_suite_follows_the_w_method() {
    let tests = SxMTester::generate_logic_tests::<Digicode, _>(identifier_map);
    // Eleven defined inputs in Ready, eleven in Accepting, one in
    // CodeEntered.
    assert_eq!(tests.len(), 23);

    // Ready + OkEnter: the reject function fires against fresh memory.
    assert_eq!(tests[0].test_input, In::OkEnter);
    assert_eq!(tests[0].setup_sequence, Vec::<In>::new());
    assert_eq!(tests[0].expected_output, Some(Out::RejectInput));
    assert_eq!(tests[0].verification_sequence, vec![In::Digit(1)]);

    // Ready + a digit: the digit is echoed and Accepting is verified.
    assert_eq!(tests[1].test_input, In::Digit(0));
    assert_eq!(tests[1].expected_output, Some(Out::Digit(0)));
    assert_eq!(tests[1].verification_sequence, vec![In::OkEnter]);

    // Accepting + OkEnter: the finish guard fails against fresh memory, so
    // the expected output is absent - the documented approximation of the
    // conformance generator for memory-sensitive guards.
    assert_eq!(tests[11].test_input, In::OkEnter);
    assert_eq!(tests[11].setup_sequence, vec![In::Digit(0)]);
    assert_eq!(tests[11].expected_output, None);
    assert_eq!(tests[11].verification_sequence, vec![In::DoorCloses]);

    // CodeEntered + DoorCloses: the lock function re-arms the keypad.
    assert_eq!(tests[22].test_input, In::DoorCloses);
    assert_eq!(tests[22].setup_sequence, vec![In::Digit(0), In::OkEnter]);
    assert_eq!(tests[22].expected_output, Some(Out::Initialise));
    assert_eq!(tests[22].verification_sequence, vec![In::Digit(1)]);
}

#[test]
fn phi_suite_is_guard_accurate() {
    let tests = SxMTester::generate_phi_coverage_tests::<Digicode, _>(identifier_map);
    assert_eq!(tests.len(), 23);

    // The finish function is exercised by the exact code, and its expected
    // output is computed against the discovered memory, so the door opens.
    let finish: Vec<_> = tests
        .iter()
        .filter(|t| t.expected_output == Some(Out::Open))
        .collect();
    assert_eq!(finish.len(), 1);
    assert_eq!(
        finish[0].setup_sequence,
        vec![In::Digit(4), In::Digit(9), In::Digit(2)]
    );
    assert_eq!(finish[0].test_input, In::OkEnter);
    assert_eq!(finish[0].verification_sequence, vec![In::DoorCloses]);

    // No search explored beyond the depth bound.
    for t in &tests {
        assert!(t.setup_sequence.len() <= 10);
    }
}

#[test]
fn routed_functions_always_have_destinations() {
    // Wherever the routing function selects a processing function, the
    // transition relation defines its destination.
    for state in Digicode::all_states() {
        for input in Digicode::all_inputs() {
            if let Some(phi) = Digicode::get_phi_for_input(&state, &input) {
                assert!(Digicode::next_state(&state, &phi).is_some());
            }
        }
    }
}

#[test]
fn replaying_the_witness_reproduces_its_memory() {
    // Replaying the returned path from the initial configuration yields
    // exactly the returned memory, and the speculated function succeeds on
    // it.
    let (path, mem) = SxMTester::find_path_to_satisfy_phi::<Digicode>(
        DigicodeState::Accepting,
        DigicodePhi::Finish,
        &In::OkEnter,
    )
    .unwrap();
    let mut state = DigicodeState::Ready;
    let mut store = Digicode::initial_store();
    for input in &path {
        let phi = Digicode::get_phi_for_input(&state, input).unwrap();
        Digicode::execute_phi(&phi, &mut store, input).unwrap();
        state = Digicode::next_state(&state, &phi).unwrap();
    }
    assert_eq!(state, DigicodeState::Accepting);
    assert_eq!(store, mem);
    let mut speculative = store;
    assert!(Digicode::execute_phi(&DigicodePhi::Finish, &mut speculative, &In::OkEnter).is_ok());
}

#[test]
fn regeneration_yields_identical_suites() {
    let r1 = SxMTester::generate_robustness_tests::<Digicode>();
    let r2 = SxMTester::generate_robustness_tests::<Digicode>();
    assert_eq!(r1, r2);

    let l1 = SxMTester::generate_logic_tests::<Digicode, _>(identifier_map);
    let l2 = SxMTester::generate_logic_tests::<Digicode, _>(identifier_map);
    assert_eq!(l1, l2);

    let p1 = SxMTester::generate_phi_coverage_tests::<Digicode, _>(identifier_map);
    let p2 = SxMTester::generate_phi_coverage_tests::<Digicode, _>(identifier_map);
    assert_eq!(p1, p2);
}
