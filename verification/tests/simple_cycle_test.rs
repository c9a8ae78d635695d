// A two-state cycle driven through the runner's ordered-trial dispatch.

use sxm::machines::LightSwitch;
use sxm::machines::SwitchState;
use sxm::MachineRunner;

#[test]
fn test_separated_logic() {
    let mut machine = MachineRunner::<LightSwitch>::new();

    // 1. Send '0' (noise) - should fail the guard.
    let res = machine.step(0);
    assert!(res.is_err());
    assert_eq!(machine.state, SwitchState::Off);

    // 2. Send '1' - should transition to On.
    let res = machine.step(1);
    assert!(res.is_ok());
    assert_eq!(machine.state, SwitchState::On);

    // 3. Send '1' - should transition to Off.
    let res = machine.step(1);
    assert!(res.is_ok());
    assert_eq!(machine.state, SwitchState::Off);
}

#[test]
fn switch_counts_clicks() {
    let mut machine = MachineRunner::<LightSwitch>::new();
    assert_eq!(machine.store.clicks, 0);
    machine.step(1).unwrap();
    machine.step(1).unwrap();
    machine.step(0).unwrap_err();
    assert_eq!(machine.store.clicks, 2);
}
