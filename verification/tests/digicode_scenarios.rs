// The three-digit code door scenario: a keypad machine composed with a door
// machine, the keypad's output routed to the door's input by the harness.

use sxm::machines::Digicode;
use sxm::machines::DigicodeInputAlphabet as In;
use sxm::machines::DigicodeOutputAlphabet as Out;
use sxm::machines::DigicodeState;
use sxm::machines::Door;
use sxm::machines::DoorInputAlphabet;
use sxm::machines::DoorOutputAlphabet;
use sxm::MachineRunner;
use sxm::XMachine;

#[test]
fn entering_the_code_opens_the_door_once() {
    let mut keypad = MachineRunner::<Digicode>::new();
    let mut door = MachineRunner::<Door>::new();
    assert_eq!(door.store, 0);

    assert_eq!(keypad.step(In::Digit(4)), Ok(Some(Out::Digit(4))));
    assert_eq!(keypad.step(In::Digit(9)), Ok(Some(Out::Digit(9))));
    assert_eq!(keypad.step(In::Digit(2)), Ok(Some(Out::Digit(2))));
    let res = keypad.step(In::OkEnter);
    assert_eq!(res, Ok(Some(Out::Open)));
    assert_eq!(keypad.state, DigicodeState::CodeEntered);

    // The harness routes the keypad's Open output to the door.
    let door_res = door.step(DoorInputAlphabet::Open);
    assert_eq!(door_res, Ok(Some(DoorOutputAlphabet::DoorOpens)));

    // The open-count memory went from 0 to 1.
    assert_eq!(door.store, 1);
}

#[test]
fn wrong_code_is_rejected_and_cleared() {
    let mut keypad = MachineRunner::<Digicode>::new();
    keypad.step(In::Digit(4)).unwrap();
    keypad.step(In::Digit(9)).unwrap();
    keypad.step(In::Digit(3)).unwrap();
    let res = keypad.step(In::OkEnter);
    assert_eq!(res, Ok(Some(Out::RejectInput)));
    assert_eq!(keypad.state, DigicodeState::Ready);
    // The accumulated sequence was cleared.
    assert_eq!(keypad.store.entered_len, 0);
}

#[test]
fn fourth_digit_is_ignored_without_memory_change() {
    let mut keypad = MachineRunner::<Digicode>::new();
    keypad.step(In::Digit(4)).unwrap();
    keypad.step(In::Digit(9)).unwrap();
    keypad.step(In::Digit(2)).unwrap();
    let before = keypad.store;
    let res = keypad.step(In::Digit(7));
    assert_eq!(res, Ok(Some(Out::IgnoreDigit)));
    assert_eq!(keypad.state, DigicodeState::Accepting);
    assert_eq!(keypad.store, before);
}

#[test]
fn door_close_relocks_the_keypad() {
    let mut keypad = MachineRunner::<Digicode>::new();
    keypad.step(In::Digit(4)).unwrap();
    keypad.step(In::Digit(9)).unwrap();
    keypad.step(In::Digit(2)).unwrap();
    assert_eq!(keypad.step(In::OkEnter), Ok(Some(Out::Open)));
    assert_eq!(keypad.step(In::DoorCloses), Ok(Some(Out::Initialise)));
    assert_eq!(keypad.state, DigicodeState::Ready);
    assert_eq!(keypad.store.entered_len, 0);
}

#[test]
fn guard_rejection_leaves_memory_untouched() {
    // A direct guarded execution whose guard rejects must be atomic.
    let mut mem = Digicode::initial_store();
    let before = mem;
    let res = Digicode::execute_phi(
        &sxm::machines::DigicodePhi::Finish,
        &mut mem,
        &In::OkEnter,
    );
    assert_eq!(res, Err(()));
    assert_eq!(mem, before);
}
