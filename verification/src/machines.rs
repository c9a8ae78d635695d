//! Worked machine models, verified against the machine contract.
//!
//! `LightSwitch` is a two-state cycle with a global guard; `Digicode` and
//! `Door` form the keypad-and-door pair whose data-dependent "finish" guard
//! motivates the guard-aware search.

use crate::traits::routing_agrees;
use crate::traits::state_enum_closed;
use crate::traits::XMachine;
use vstd::prelude::*;

verus! {

/// The states of the light switch.
#[derive(Copy, Clone, PartialEq, Eq, Structural, Debug)]
pub enum SwitchState {
    Off,
    On,
}

/// The processing functions of the light switch.
#[derive(Copy, Clone, PartialEq, Eq, Structural, Debug)]
pub enum SwitchPhi {
    TurnOn,
    TurnOff,
}

/// The outputs of the light switch.
#[derive(Copy, Clone, PartialEq, Eq, Structural, Debug)]
pub enum SwitchOutput {
    SwitchedOn,
    SwitchedOff,
}

/// The memory of the light switch: how often it was flipped.
#[derive(Copy, Clone, PartialEq, Eq, Structural, Debug)]
pub struct SwitchStore {
    pub clicks: u32,
}

/// A two-state machine: pressing the button (input `1`) flips the switch and
/// counts the click; any other input fails the global guard.
pub struct LightSwitch;

impl XMachine for LightSwitch {
    type Input = u8;

    type Output = SwitchOutput;

    type State = SwitchState;

    type Store = SwitchStore;

    type Phi = SwitchPhi;

    open spec fn initial_states_spec() -> Seq<SwitchState> {
        seq![SwitchState::Off]
    }

    open spec fn final_states_spec() -> Seq<SwitchState> {
        seq![SwitchState::Off, SwitchState::On]
    }

    open spec fn all_states_spec() -> Seq<SwitchState> {
        seq![SwitchState::Off, SwitchState::On]
    }

    open spec fn all_inputs_spec() -> Seq<u8> {
        seq![0u8, 1u8]
    }

    open spec fn all_outputs_spec() -> Seq<SwitchOutput> {
        seq![SwitchOutput::SwitchedOn, SwitchOutput::SwitchedOff]
    }

    open spec fn all_phis_spec() -> Seq<SwitchPhi> {
        seq![SwitchPhi::TurnOn, SwitchPhi::TurnOff]
    }

    open spec fn initial_store_spec() -> SwitchStore {
        SwitchStore { clicks: 0 }
    }

    open spec fn transition_spec(state: SwitchState, phi: SwitchPhi) -> Option<SwitchState> {
        match (state, phi) {
            (SwitchState::Off, SwitchPhi::TurnOn) => Some(SwitchState::On),
            (SwitchState::On, SwitchPhi::TurnOff) => Some(SwitchState::Off),
            _ => None,
        }
    }

    open spec fn routed_phi_spec(state: SwitchState, input: u8) -> Option<SwitchPhi> {
        if input == 1 {
            match state {
                SwitchState::Off => Some(SwitchPhi::TurnOn),
                SwitchState::On => Some(SwitchPhi::TurnOff),
            }
        } else {
            None
        }
    }

    open spec fn available_phi_spec(state: SwitchState) -> Seq<SwitchPhi> {
        match state {
            SwitchState::Off => seq![SwitchPhi::TurnOn],
            SwitchState::On => seq![SwitchPhi::TurnOff],
        }
    }

    open spec fn guard_spec(phi: SwitchPhi, store: SwitchStore, input: u8) -> bool {
        input == 1
    }

    open spec fn step_store_spec(phi: SwitchPhi, store: SwitchStore, input: u8) -> SwitchStore {
        if store.clicks < u32::MAX {
            SwitchStore { clicks: (store.clicks + 1) as u32 }
        } else {
            store
        }
    }

    open spec fn step_output_spec(phi: SwitchPhi, store: SwitchStore, input: u8) -> Option<
        SwitchOutput,
    > {
        match phi {
            SwitchPhi::TurnOn => Some(SwitchOutput::SwitchedOn),
            SwitchPhi::TurnOff => Some(SwitchOutput::SwitchedOff),
        }
    }

    fn initial_states() -> (r: Vec<SwitchState>) {
        let mut r: Vec<SwitchState> = Vec::new();
        r.push(SwitchState::Off);
        proof {
            assert(r@ =~= Self::initial_states_spec());
        }
        r
    }

    fn final_states() -> (r: Vec<SwitchState>) {
        let mut r: Vec<SwitchState> = Vec::new();
        r.push(SwitchState::Off);
        r.push(SwitchState::On);
        proof {
            assert(r@ =~= Self::final_states_spec());
        }
        r
    }

    fn all_states() -> (r: Vec<SwitchState>) {
        let mut r: Vec<SwitchState> = Vec::new();
        r.push(SwitchState::Off);
        r.push(SwitchState::On);
        proof {
            assert(r@ =~= Self::all_states_spec());
        }
        r
    }

    fn all_inputs() -> (r: Vec<u8>) {
        let mut r: Vec<u8> = Vec::new();
        r.push(0);
        r.push(1);
        proof {
            assert(r@ =~= Self::all_inputs_spec());
        }
        r
    }

    fn all_outputs() -> (r: Vec<SwitchOutput>) {
        let mut r: Vec<SwitchOutput> = Vec::new();
        r.push(SwitchOutput::SwitchedOn);
        r.push(SwitchOutput::SwitchedOff);
        proof {
            assert(r@ =~= Self::all_outputs_spec());
        }
        r
    }

    fn all_phis() -> (r: Vec<SwitchPhi>) {
        let mut r: Vec<SwitchPhi> = Vec::new();
        r.push(SwitchPhi::TurnOn);
        r.push(SwitchPhi::TurnOff);
        proof {
            assert(r@ =~= Self::all_phis_spec());
        }
        r
    }

    fn initial_store() -> (r: SwitchStore) {
        SwitchStore { clicks: 0 }
    }

    fn next_state(state: &SwitchState, phi: &SwitchPhi) -> (r: Option<SwitchState>) {
        match (state, phi) {
            (SwitchState::Off, SwitchPhi::TurnOn) => Some(SwitchState::On),
            (SwitchState::On, SwitchPhi::TurnOff) => Some(SwitchState::Off),
            _ => None,
        }
    }

    fn get_phi_for_input(state: &SwitchState, input: &u8) -> (r: Option<SwitchPhi>) {
        if *input == 1 {
            match state {
                SwitchState::Off => Some(SwitchPhi::TurnOn),
                SwitchState::On => Some(SwitchPhi::TurnOff),
            }
        } else {
            None
        }
    }

    fn get_available_phi(state: &SwitchState) -> (r: Vec<SwitchPhi>) {
        let mut r: Vec<SwitchPhi> = Vec::new();
        match state {
            SwitchState::Off => r.push(SwitchPhi::TurnOn),
            SwitchState::On => r.push(SwitchPhi::TurnOff),
        }
        proof {
            assert(r@ =~= Self::available_phi_spec(*state));
        }
        r
    }

    fn execute_phi(phi: &SwitchPhi, store: &mut SwitchStore, input: &u8) -> (r: Result<
        Option<SwitchOutput>,
        (),
    >) {
        // Global guard: only a button press (input 1) is accepted.
        if *input != 1 {
            return Err(());
        }
        if store.clicks < u32::MAX {
            store.clicks = store.clicks + 1;
        }
        match phi {
            SwitchPhi::TurnOn => Ok(Some(SwitchOutput::SwitchedOn)),
            SwitchPhi::TurnOff => Ok(Some(SwitchOutput::SwitchedOff)),
        }
    }

    fn state_eq(a: &SwitchState, b: &SwitchState) -> (r: bool) {
        *a == *b
    }

    fn clone_state(s: &SwitchState) -> (r: SwitchState) {
        *s
    }

    fn clone_input(i: &u8) -> (r: u8) {
        *i
    }

    fn clone_phi(p: &SwitchPhi) -> (r: SwitchPhi) {
        *p
    }

    fn clone_store(m: &SwitchStore) -> (r: SwitchStore) {
        *m
    }
}

/// The light switch routes a processing function only where its destination
/// is defined: routing and topology never disagree.
pub proof fn lemma_light_switch_routing_agrees()
    ensures
        routing_agrees::<LightSwitch>(),
{
}

/// The light switch's state enumeration is closed under the routed dispatch.
pub proof fn lemma_light_switch_state_enum_closed()
    ensures
        state_enum_closed::<LightSwitch>(),
{
    assert(LightSwitch::all_states_spec().contains(SwitchState::Off));
    assert(LightSwitch::all_states_spec().contains(SwitchState::On));
}

/// The input alphabet of the keypad.
#[derive(Copy, Clone, PartialEq, Eq, Structural, Debug)]
pub enum DigicodeInputAlphabet {
    OkEnter,
    DoorCloses,
    Digit(u8),
}

/// The output alphabet of the keypad.
#[derive(Copy, Clone, PartialEq, Eq, Structural, Debug)]
pub enum DigicodeOutputAlphabet {
    Digit(u8),
    Open,
    Initialise,
    IgnoreDigit,
    RejectInput,
}

/// The states of the keypad.
#[derive(Copy, Clone, PartialEq, Eq, Structural, Debug)]
pub enum DigicodeState {
    Ready,
    Accepting,
    CodeEntered,
}

/// The processing functions of the keypad.
#[derive(Copy, Clone, PartialEq, Eq, Structural, Debug)]
pub enum DigicodePhi {
    Reject,
    InputDigit,
    Ignore,
    Finish,
    Lock,
}

/// The memory of the keypad: up to three entered digits and the fixed
/// three-digit door code.
#[derive(Copy, Clone, PartialEq, Eq, Structural, Debug)]
pub struct DigicodeMemory {
    /// How many digits have been entered so far (at most three).
    pub entered_len: u8,
    /// The entered digits, in order; slots at or past `entered_len` are
    /// irrelevant.
    pub entered_0: u8,
    pub entered_1: u8,
    pub entered_2: u8,
    /// The valid door code, digit by digit.
    pub code_0: u8,
    pub code_1: u8,
    pub code_2: u8,
}

/// A three-digit code door keypad: digits accumulate in memory while fewer
/// than three have been entered; an enter key opens the door exactly when
/// the accumulated digits match the code, and rejects (clearing the entry)
/// otherwise; a door-closed signal re-arms the keypad.
pub struct Digicode;

/// The accumulated digits match the valid code completely.
pub open spec fn digicode_code_matches(m: DigicodeMemory) -> bool {
    m.entered_len == 3 && m.entered_0 == m.code_0 && m.entered_1 == m.code_1 && m.entered_2
        == m.code_2
}

/// The memory with the accumulated digits cleared.
pub open spec fn digicode_cleared(m: DigicodeMemory) -> DigicodeMemory {
    DigicodeMemory { entered_len: 0, ..m }
}

/// The memory with one more digit accumulated.
pub open spec fn digicode_pushed(m: DigicodeMemory, d: u8) -> DigicodeMemory {
    if m.entered_len == 0 {
        DigicodeMemory { entered_len: 1, entered_0: d, ..m }
    } else if m.entered_len == 1 {
        DigicodeMemory { entered_len: 2, entered_1: d, ..m }
    } else {
        DigicodeMemory { entered_len: 3, entered_2: d, ..m }
    }
}

impl XMachine for Digicode {
    type Input = DigicodeInputAlphabet;

    type Output = DigicodeOutputAlphabet;

    type State = DigicodeState;

    type Store = DigicodeMemory;

    type Phi = DigicodePhi;

    open spec fn initial_states_spec() -> Seq<DigicodeState> {
        seq![DigicodeState::Ready]
    }

    open spec fn final_states_spec() -> Seq<DigicodeState> {
        seq![DigicodeState::Ready, DigicodeState::Accepting, DigicodeState::CodeEntered]
    }

    open spec fn all_states_spec() -> Seq<DigicodeState> {
        seq![DigicodeState::Ready, DigicodeState::Accepting, DigicodeState::CodeEntered]
    }

    open spec fn all_inputs_spec() -> Seq<DigicodeInputAlphabet> {
        seq![
            DigicodeInputAlphabet::OkEnter,
            DigicodeInputAlphabet::DoorCloses,
            DigicodeInputAlphabet::Digit(0),
            DigicodeInputAlphabet::Digit(1),
            DigicodeInputAlphabet::Digit(2),
            DigicodeInputAlphabet::Digit(3),
            DigicodeInputAlphabet::Digit(4),
            DigicodeInputAlphabet::Digit(5),
            DigicodeInputAlphabet::Digit(6),
            DigicodeInputAlphabet::Digit(7),
            DigicodeInputAlphabet::Digit(8),
            DigicodeInputAlphabet::Digit(9),
        ]
    }

    open spec fn all_outputs_spec() -> Seq<DigicodeOutputAlphabet> {
        seq![
            DigicodeOutputAlphabet::Digit(0),
            DigicodeOutputAlphabet::Digit(1),
            DigicodeOutputAlphabet::Digit(2),
            DigicodeOutputAlphabet::Digit(3),
            DigicodeOutputAlphabet::Digit(4),
            DigicodeOutputAlphabet::Digit(5),
            DigicodeOutputAlphabet::Digit(6),
            DigicodeOutputAlphabet::Digit(7),
            DigicodeOutputAlphabet::Digit(8),
            DigicodeOutputAlphabet::Digit(9),
            DigicodeOutputAlphabet::Open,
            DigicodeOutputAlphabet::Initialise,
            DigicodeOutputAlphabet::IgnoreDigit,
            DigicodeOutputAlphabet::RejectInput,
        ]
    }

    open spec fn all_phis_spec() -> Seq<DigicodePhi> {
        seq![
            DigicodePhi::Reject,
            DigicodePhi::InputDigit,
            DigicodePhi::Ignore,
            DigicodePhi::Finish,
            DigicodePhi::Lock,
        ]
    }

    open spec fn initial_store_spec() -> DigicodeMemory {
        DigicodeMemory {
            entered_len: 0,
            entered_0: 0,
            entered_1: 0,
            entered_2: 0,
            code_0: 4,
            code_1: 9,
            code_2: 2,
        }
    }

    open spec fn transition_spec(state: DigicodeState, phi: DigicodePhi) -> Option<DigicodeState> {
        match (state, phi) {
            (DigicodeState::Ready, DigicodePhi::InputDigit) => Some(DigicodeState::Accepting),
            (DigicodeState::Ready, DigicodePhi::Reject) => Some(DigicodeState::Ready),
            (DigicodeState::Accepting, DigicodePhi::InputDigit) => Some(DigicodeState::Accepting),
            (DigicodeState::Accepting, DigicodePhi::Finish) => Some(DigicodeState::CodeEntered),
            (DigicodeState::Accepting, DigicodePhi::Reject) => Some(DigicodeState::Ready),
            (DigicodeState::Accepting, DigicodePhi::Ignore) => Some(DigicodeState::Accepting),
            (DigicodeState::CodeEntered, DigicodePhi::Lock) => Some(DigicodeState::Ready),
            _ => None,
        }
    }

    open spec fn routed_phi_spec(state: DigicodeState, input: DigicodeInputAlphabet) -> Option<
        DigicodePhi,
    > {
        match (state, input) {
            (DigicodeState::Ready, DigicodeInputAlphabet::Digit(_)) => Some(DigicodePhi::InputDigit),
            (DigicodeState::Ready, DigicodeInputAlphabet::OkEnter) => Some(DigicodePhi::Reject),
            (DigicodeState::Accepting, DigicodeInputAlphabet::Digit(_)) => Some(
                DigicodePhi::InputDigit,
            ),
            (DigicodeState::Accepting, DigicodeInputAlphabet::OkEnter) => Some(DigicodePhi::Finish),
            (DigicodeState::CodeEntered, DigicodeInputAlphabet::DoorCloses) => Some(
                DigicodePhi::Lock,
            ),
            _ => None,
        }
    }

    open spec fn available_phi_spec(state: DigicodeState) -> Seq<DigicodePhi> {
        match state {
            DigicodeState::Ready => seq![DigicodePhi::InputDigit, DigicodePhi::Reject],
            DigicodeState::Accepting => seq![
                DigicodePhi::InputDigit,
                DigicodePhi::Finish,
                DigicodePhi::Ignore,
                DigicodePhi::Reject,
            ],
            DigicodeState::CodeEntered => seq![DigicodePhi::Lock],
        }
    }

    open spec fn guard_spec(
        phi: DigicodePhi,
        store: DigicodeMemory,
        input: DigicodeInputAlphabet,
    ) -> bool {
        match (phi, input) {
            (DigicodePhi::Reject, DigicodeInputAlphabet::OkEnter) => !digicode_code_matches(store),
            (DigicodePhi::InputDigit, DigicodeInputAlphabet::Digit(_)) => store.entered_len < 3,
            (DigicodePhi::Ignore, DigicodeInputAlphabet::Digit(_)) => store.entered_len == 3,
            (DigicodePhi::Finish, DigicodeInputAlphabet::OkEnter) => digicode_code_matches(store),
            (DigicodePhi::Lock, DigicodeInputAlphabet::DoorCloses) => true,
            _ => false,
        }
    }

    open spec fn step_store_spec(
        phi: DigicodePhi,
        store: DigicodeMemory,
        input: DigicodeInputAlphabet,
    ) -> DigicodeMemory {
        match (phi, input) {
            (DigicodePhi::Reject, DigicodeInputAlphabet::OkEnter) => digicode_cleared(store),
            (DigicodePhi::InputDigit, DigicodeInputAlphabet::Digit(d)) => digicode_pushed(store, d),
            (DigicodePhi::Lock, DigicodeInputAlphabet::DoorCloses) => digicode_cleared(store),
            _ => store,
        }
    }

    open spec fn step_output_spec(
        phi: DigicodePhi,
        store: DigicodeMemory,
        input: DigicodeInputAlphabet,
    ) -> Option<DigicodeOutputAlphabet> {
        match (phi, input) {
            (DigicodePhi::Reject, DigicodeInputAlphabet::OkEnter) => Some(
                DigicodeOutputAlphabet::RejectInput,
            ),
            (DigicodePhi::InputDigit, DigicodeInputAlphabet::Digit(d)) => Some(
                DigicodeOutputAlphabet::Digit(d),
            ),
            (DigicodePhi::Ignore, DigicodeInputAlphabet::Digit(_)) => Some(
                DigicodeOutputAlphabet::IgnoreDigit,
            ),
            (DigicodePhi::Finish, DigicodeInputAlphabet::OkEnter) => Some(
                DigicodeOutputAlphabet::Open,
            ),
            (DigicodePhi::Lock, DigicodeInputAlphabet::DoorCloses) => Some(
                DigicodeOutputAlphabet::Initialise,
            ),
            _ => None,
        }
    }

    fn initial_states() -> (r: Vec<DigicodeState>) {
        let mut r: Vec<DigicodeState> = Vec::new();
        r.push(DigicodeState::Ready);
        proof {
            assert(r@ =~= Self::initial_states_spec());
        }
        r
    }

    fn final_states() -> (r: Vec<DigicodeState>) {
        let mut r: Vec<DigicodeState> = Vec::new();
        r.push(DigicodeState::Ready);
        r.push(DigicodeState::Accepting);
        r.push(DigicodeState::CodeEntered);
        proof {
            assert(r@ =~= Self::final_states_spec());
        }
        r
    }

    fn all_states() -> (r: Vec<DigicodeState>) {
        let mut r: Vec<DigicodeState> = Vec::new();
        r.push(DigicodeState::Ready);
        r.push(DigicodeState::Accepting);
        r.push(DigicodeState::CodeEntered);
        proof {
            assert(r@ =~= Self::all_states_spec());
        }
        r
    }

    fn all_inputs() -> (r: Vec<DigicodeInputAlphabet>) {
        let mut r: Vec<DigicodeInputAlphabet> = Vec::new();
        r.push(DigicodeInputAlphabet::OkEnter);
        r.push(DigicodeInputAlphabet::DoorCloses);
        let mut d: u8 = 0;
        while d < 10
            invariant
                d <= 10,
                r@.len() == 2 + d,
                r@[0] == DigicodeInputAlphabet::OkEnter,
                r@[1] == DigicodeInputAlphabet::DoorCloses,
                forall|k: int| 2 <= k < r@.len() ==> r@[k] == DigicodeInputAlphabet::Digit((k - 2) as u8),
            decreases 10 - d,
        {
            r.push(DigicodeInputAlphabet::Digit(d));
            d += 1;
        }
        proof {
            assert(r@ =~= Self::all_inputs_spec());
        }
        r
    }

    fn all_outputs() -> (r: Vec<DigicodeOutputAlphabet>) {
        let mut r: Vec<DigicodeOutputAlphabet> = Vec::new();
        let mut d: u8 = 0;
        while d < 10
            invariant
                d <= 10,
                r@.len() == d,
                forall|k: int| 0 <= k < r@.len() ==> r@[k] == DigicodeOutputAlphabet::Digit(k as u8),
            decreases 10 - d,
        {
            r.push(DigicodeOutputAlphabet::Digit(d));
            d += 1;
        }
        r.push(DigicodeOutputAlphabet::Open);
        r.push(DigicodeOutputAlphabet::Initialise);
        r.push(DigicodeOutputAlphabet::IgnoreDigit);
        r.push(DigicodeOutputAlphabet::RejectInput);
        proof {
            assert(r@ =~= Self::all_outputs_spec());
        }
        r
    }

    fn all_phis() -> (r: Vec<DigicodePhi>) {
        let mut r: Vec<DigicodePhi> = Vec::new();
        r.push(DigicodePhi::Reject);
        r.push(DigicodePhi::InputDigit);
        r.push(DigicodePhi::Ignore);
        r.push(DigicodePhi::Finish);
        r.push(DigicodePhi::Lock);
        proof {
            assert(r@ =~= Self::all_phis_spec());
        }
        r
    }

    fn initial_store() -> (r: DigicodeMemory) {
        DigicodeMemory {
            entered_len: 0,
            entered_0: 0,
            entered_1: 0,
            entered_2: 0,
            code_0: 4,
            code_1: 9,
            code_2: 2,
        }
    }

    fn next_state(state: &DigicodeState, phi: &DigicodePhi) -> (r: Option<DigicodeState>) {
        match (state, phi) {
            (DigicodeState::Ready, DigicodePhi::InputDigit) => Some(DigicodeState::Accepting),
            (DigicodeState::Ready, DigicodePhi::Reject) => Some(DigicodeState::Ready),
            (DigicodeState::Accepting, DigicodePhi::InputDigit) => Some(DigicodeState::Accepting),
            (DigicodeState::Accepting, DigicodePhi::Finish) => Some(DigicodeState::CodeEntered),
            (DigicodeState::Accepting, DigicodePhi::Reject) => Some(DigicodeState::Ready),
            (DigicodeState::Accepting, DigicodePhi::Ignore) => Some(DigicodeState::Accepting),
            (DigicodeState::CodeEntered, DigicodePhi::Lock) => Some(DigicodeState::Ready),
            _ => None,
        }
    }

    fn get_phi_for_input(state: &DigicodeState, input: &DigicodeInputAlphabet) -> (r: Option<
        DigicodePhi,
    >) {
        match (state, input) {
            (DigicodeState::Ready, DigicodeInputAlphabet::Digit(_)) => Some(DigicodePhi::InputDigit),
            (DigicodeState::Ready, DigicodeInputAlphabet::OkEnter) => Some(DigicodePhi::Reject),
            (DigicodeState::Accepting, DigicodeInputAlphabet::Digit(_)) => Some(
                DigicodePhi::InputDigit,
            ),
            (DigicodeState::Accepting, DigicodeInputAlphabet::OkEnter) => Some(DigicodePhi::Finish),
            (DigicodeState::CodeEntered, DigicodeInputAlphabet::DoorCloses) => Some(
                DigicodePhi::Lock,
            ),
            _ => None,
        }
    }

    fn get_available_phi(state: &DigicodeState) -> (r: Vec<DigicodePhi>) {
        let mut r: Vec<DigicodePhi> = Vec::new();
        match state {
            DigicodeState::Ready => {
                r.push(DigicodePhi::InputDigit);
                r.push(DigicodePhi::Reject);
            },
            DigicodeState::Accepting => {
                r.push(DigicodePhi::InputDigit);
                r.push(DigicodePhi::Finish);
                r.push(DigicodePhi::Ignore);
                r.push(DigicodePhi::Reject);
            },
            DigicodeState::CodeEntered => {
                r.push(DigicodePhi::Lock);
            },
        }
        proof {
            assert(r@ =~= Self::available_phi_spec(*state));
        }
        r
    }

    fn execute_phi(
        phi: &DigicodePhi,
        store: &mut DigicodeMemory,
        input: &DigicodeInputAlphabet,
    ) -> (r: Result<Option<DigicodeOutputAlphabet>, ()>) {
        match (phi, input) {
            (DigicodePhi::Reject, DigicodeInputAlphabet::OkEnter) => {
                let matches_code = store.entered_len == 3 && store.entered_0 == store.code_0
                    && store.entered_1 == store.code_1 && store.entered_2 == store.code_2;
                if !matches_code {
                    store.entered_len = 0;
                    Ok(Some(DigicodeOutputAlphabet::RejectInput))
                } else {
                    Err(())
                }
            },
            (DigicodePhi::InputDigit, DigicodeInputAlphabet::Digit(d)) => {
                if store.entered_len < 3 {
                    if store.entered_len == 0 {
                        store.entered_0 = *d;
                        store.entered_len = 1;
                    } else if store.entered_len == 1 {
                        store.entered_1 = *d;
                        store.entered_len = 2;
                    } else {
                        store.entered_2 = *d;
                        store.entered_len = 3;
                    }
                    Ok(Some(DigicodeOutputAlphabet::Digit(*d)))
                } else {
                    Err(())
                }
            },
            (DigicodePhi::Ignore, DigicodeInputAlphabet::Digit(_)) => {
                if store.entered_len == 3 {
                    Ok(Some(DigicodeOutputAlphabet::IgnoreDigit))
                } else {
                    Err(())
                }
            },
            (DigicodePhi::Finish, DigicodeInputAlphabet::OkEnter) => {
                let matches_code = store.entered_len == 3 && store.entered_0 == store.code_0
                    && store.entered_1 == store.code_1 && store.entered_2 == store.code_2;
                if matches_code {
                    Ok(Some(DigicodeOutputAlphabet::Open))
                } else {
                    Err(())
                }
            },
            (DigicodePhi::Lock, DigicodeInputAlphabet::DoorCloses) => {
                store.entered_len = 0;
                Ok(Some(DigicodeOutputAlphabet::Initialise))
            },
            _ => Err(()),
        }
    }

    fn state_eq(a: &DigicodeState, b: &DigicodeState) -> (r: bool) {
        *a == *b
    }

    fn clone_state(s: &DigicodeState) -> (r: DigicodeState) {
        *s
    }

    fn clone_input(i: &DigicodeInputAlphabet) -> (r: DigicodeInputAlphabet) {
        *i
    }

    fn clone_phi(p: &DigicodePhi) -> (r: DigicodePhi) {
        *p
    }

    fn clone_store(m: &DigicodeMemory) -> (r: DigicodeMemory) {
        *m
    }
}

/// The keypad routes a processing function only where its destination is
/// defined: routing and topology never disagree.
pub proof fn lemma_digicode_routing_agrees()
    ensures
        routing_agrees::<Digicode>(),
{
}

/// The keypad's state enumeration is closed under the routed dispatch.
pub proof fn lemma_digicode_state_enum_closed()
    ensures
        state_enum_closed::<Digicode>(),
{
    assert(Digicode::all_states_spec().contains(DigicodeState::Ready));
    assert(Digicode::all_states_spec().contains(DigicodeState::Accepting));
    assert(Digicode::all_states_spec().contains(DigicodeState::CodeEntered));
}

/// The input alphabet of the door.
#[derive(Copy, Clone, PartialEq, Eq, Structural, Debug)]
pub enum DoorInputAlphabet {
    Open,
    Close,
}

/// The output alphabet of the door.
#[derive(Copy, Clone, PartialEq, Eq, Structural, Debug)]
pub enum DoorOutputAlphabet {
    DoorOpens,
    DoorCloses,
    OpenIgnored,
    CloseIgnored,
}

/// The states of the door.
#[derive(Copy, Clone, PartialEq, Eq, Structural, Debug)]
pub enum DoorState {
    Closed,
    Opened,
}

/// The processing functions of the door.
#[derive(Copy, Clone, PartialEq, Eq, Structural, Debug)]
pub enum DoorPhi {
    OpenDoor,
    CloseDoor,
    IgnoreOpen,
    IgnoreClose,
}

/// A two-state door; its memory counts how often it has been opened.
pub struct Door;

impl XMachine for Door {
    type Input = DoorInputAlphabet;

    type Output = DoorOutputAlphabet;

    type State = DoorState;

    type Store = u32;

    type Phi = DoorPhi;

    open spec fn initial_states_spec() -> Seq<DoorState> {
        seq![DoorState::Closed]
    }

    open spec fn final_states_spec() -> Seq<DoorState> {
        seq![DoorState::Closed, DoorState::Opened]
    }

    open spec fn all_states_spec() -> Seq<DoorState> {
        seq![DoorState::Closed, DoorState::Opened]
    }

    open spec fn all_inputs_spec() -> Seq<DoorInputAlphabet> {
        seq![DoorInputAlphabet::Open, DoorInputAlphabet::Close]
    }

    open spec fn all_outputs_spec() -> Seq<DoorOutputAlphabet> {
        seq![
            DoorOutputAlphabet::DoorOpens,
            DoorOutputAlphabet::DoorCloses,
            DoorOutputAlphabet::OpenIgnored,
            DoorOutputAlphabet::CloseIgnored,
        ]
    }

    open spec fn all_phis_spec() -> Seq<DoorPhi> {
        seq![DoorPhi::OpenDoor, DoorPhi::CloseDoor, DoorPhi::IgnoreOpen, DoorPhi::IgnoreClose]
    }

    open spec fn initial_store_spec() -> u32 {
        0
    }

    open spec fn transition_spec(state: DoorState, phi: DoorPhi) -> Option<DoorState> {
        match (state, phi) {
            (DoorState::Closed, DoorPhi::OpenDoor) => Some(DoorState::Opened),
            (DoorState::Closed, DoorPhi::IgnoreClose) => Some(DoorState::Closed),
            (DoorState::Opened, DoorPhi::CloseDoor) => Some(DoorState::Closed),
            (DoorState::Opened, DoorPhi::IgnoreOpen) => Some(DoorState::Opened),
            _ => None,
        }
    }

    open spec fn routed_phi_spec(state: DoorState, input: DoorInputAlphabet) -> Option<DoorPhi> {
        match (state, input) {
            (DoorState::Closed, DoorInputAlphabet::Open) => Some(DoorPhi::OpenDoor),
            (DoorState::Closed, DoorInputAlphabet::Close) => Some(DoorPhi::IgnoreClose),
            (DoorState::Opened, DoorInputAlphabet::Close) => Some(DoorPhi::CloseDoor),
            (DoorState::Opened, DoorInputAlphabet::Open) => Some(DoorPhi::IgnoreOpen),
        }
    }

    open spec fn available_phi_spec(state: DoorState) -> Seq<DoorPhi> {
        match state {
            DoorState::Closed => seq![DoorPhi::OpenDoor, DoorPhi::IgnoreClose],
            DoorState::Opened => seq![DoorPhi::CloseDoor, DoorPhi::IgnoreOpen],
        }
    }

    open spec fn guard_spec(phi: DoorPhi, store: u32, input: DoorInputAlphabet) -> bool {
        match (phi, input) {
            (DoorPhi::OpenDoor, DoorInputAlphabet::Open) => true,
            (DoorPhi::CloseDoor, DoorInputAlphabet::Close) => true,
            (DoorPhi::IgnoreOpen, DoorInputAlphabet::Open) => true,
            (DoorPhi::IgnoreClose, DoorInputAlphabet::Close) => true,
            _ => false,
        }
    }

    open spec fn step_store_spec(phi: DoorPhi, store: u32, input: DoorInputAlphabet) -> u32 {
        match (phi, input) {
            (DoorPhi::OpenDoor, DoorInputAlphabet::Open) => if store < u32::MAX {
                (store + 1) as u32
            } else {
                store
            },
            _ => store,
        }
    }

    open spec fn step_output_spec(phi: DoorPhi, store: u32, input: DoorInputAlphabet) -> Option<
        DoorOutputAlphabet,
    > {
        match (phi, input) {
            (DoorPhi::OpenDoor, DoorInputAlphabet::Open) => Some(DoorOutputAlphabet::DoorOpens),
            (DoorPhi::CloseDoor, DoorInputAlphabet::Close) => Some(DoorOutputAlphabet::DoorCloses),
            (DoorPhi::IgnoreOpen, DoorInputAlphabet::Open) => Some(DoorOutputAlphabet::OpenIgnored),
            (DoorPhi::IgnoreClose, DoorInputAlphabet::Close) => Some(
                DoorOutputAlphabet::CloseIgnored,
            ),
            _ => None,
        }
    }

    fn initial_states() -> (r: Vec<DoorState>) {
        let mut r: Vec<DoorState> = Vec::new();
        r.push(DoorState::Closed);
        proof {
            assert(r@ =~= Self::initial_states_spec());
        }
        r
    }

    fn final_states() -> (r: Vec<DoorState>) {
        let mut r: Vec<DoorState> = Vec::new();
        r.push(DoorState::Closed);
        r.push(DoorState::Opened);
        proof {
            assert(r@ =~= Self::final_states_spec());
        }
        r
    }

    fn all_states() -> (r: Vec<DoorState>) {
        let mut r: Vec<DoorState> = Vec::new();
        r.push(DoorState::Closed);
        r.push(DoorState::Opened);
        proof {
            assert(r@ =~= Self::all_states_spec());
        }
        r
    }

    fn all_inputs() -> (r: Vec<DoorInputAlphabet>) {
        let mut r: Vec<DoorInputAlphabet> = Vec::new();
        r.push(DoorInputAlphabet::Open);
        r.push(DoorInputAlphabet::Close);
        proof {
            assert(r@ =~= Self::all_inputs_spec());
        }
        r
    }

    fn all_outputs() -> (r: Vec<DoorOutputAlphabet>) {
        let mut r: Vec<DoorOutputAlphabet> = Vec::new();
        r.push(DoorOutputAlphabet::DoorOpens);
        r.push(DoorOutputAlphabet::DoorCloses);
        r.push(DoorOutputAlphabet::OpenIgnored);
        r.push(DoorOutputAlphabet::CloseIgnored);
        proof {
            assert(r@ =~= Self::all_outputs_spec());
        }
        r
    }

    fn all_phis() -> (r: Vec<DoorPhi>) {
        let mut r: Vec<DoorPhi> = Vec::new();
        r.push(DoorPhi::OpenDoor);
        r.push(DoorPhi::CloseDoor);
        r.push(DoorPhi::IgnoreOpen);
        r.push(DoorPhi::IgnoreClose);
        proof {
            assert(r@ =~= Self::all_phis_spec());
        }
        r
    }

    fn initial_store() -> (r: u32) {
        0
    }

    fn next_state(state: &DoorState, phi: &DoorPhi) -> (r: Option<DoorState>) {
        match (state, phi) {
            (DoorState::Closed, DoorPhi::OpenDoor) => Some(DoorState::Opened),
            (DoorState::Closed, DoorPhi::IgnoreClose) => Some(DoorState::Closed),
            (DoorState::Opened, DoorPhi::CloseDoor) => Some(DoorState::Closed),
            (DoorState::Opened, DoorPhi::IgnoreOpen) => Some(DoorState::Opened),
            _ => None,
        }
    }

    fn get_phi_for_input(state: &DoorState, input: &DoorInputAlphabet) -> (r: Option<DoorPhi>) {
        match (state, input) {
            (DoorState::Closed, DoorInputAlphabet::Open) => Some(DoorPhi::OpenDoor),
            (DoorState::Closed, DoorInputAlphabet::Close) => Some(DoorPhi::IgnoreClose),
            (DoorState::Opened, DoorInputAlphabet::Close) => Some(DoorPhi::CloseDoor),
            (DoorState::Opened, DoorInputAlphabet::Open) => Some(DoorPhi::IgnoreOpen),
        }
    }

    fn get_available_phi(state: &DoorState) -> (r: Vec<DoorPhi>) {
        let mut r: Vec<DoorPhi> = Vec::new();
        match state {
            DoorState::Closed => {
                r.push(DoorPhi::OpenDoor);
                r.push(DoorPhi::IgnoreClose);
            },
            DoorState::Opened => {
                r.push(DoorPhi::CloseDoor);
                r.push(DoorPhi::IgnoreOpen);
            },
        }
        proof {
            assert(r@ =~= Self::available_phi_spec(*state));
        }
        r
    }

    fn execute_phi(phi: &DoorPhi, store: &mut u32, input: &DoorInputAlphabet) -> (r: Result<
        Option<DoorOutputAlphabet>,
        (),
    >) {
        match (phi, input) {
            (DoorPhi::OpenDoor, DoorInputAlphabet::Open) => {
                if *store < u32::MAX {
                    *store = *store + 1;
                }
                Ok(Some(DoorOutputAlphabet::DoorOpens))
            },
            (DoorPhi::CloseDoor, DoorInputAlphabet::Close) => Ok(
                Some(DoorOutputAlphabet::DoorCloses),
            ),
            (DoorPhi::IgnoreOpen, DoorInputAlphabet::Open) => Ok(
                Some(DoorOutputAlphabet::OpenIgnored),
            ),
            (DoorPhi::IgnoreClose, DoorInputAlphabet::Close) => Ok(
                Some(DoorOutputAlphabet::CloseIgnored),
            ),
            _ => Err(()),
        }
    }

    fn state_eq(a: &DoorState, b: &DoorState) -> (r: bool) {
        *a == *b
    }

    fn clone_state(s: &DoorState) -> (r: DoorState) {
        *s
    }

    fn clone_input(i: &DoorInputAlphabet) -> (r: DoorInputAlphabet) {
        *i
    }

    fn clone_phi(p: &DoorPhi) -> (r: DoorPhi) {
        *p
    }

    fn clone_store(m: &u32) -> (r: u32) {
        *m
    }
}

/// The door routes a processing function only where its destination is
/// defined: routing and topology never disagree.
pub proof fn lemma_door_routing_agrees()
    ensures
        routing_agrees::<Door>(),
{
}

/// The door's state enumeration is closed under the routed dispatch.
pub proof fn lemma_door_state_enum_closed()
    ensures
        state_enum_closed::<Door>(),
{
    assert(Door::all_states_spec().contains(DoorState::Closed));
    assert(Door::all_states_spec().contains(DoorState::Opened));
}

} // verus!
