use std::time::Duration;

use openflow::fn_gesture::{
    input_monitoring_status, route_gesture, FnEdge, Gesture, GestureRoute, GestureState,
};
use openflow::shortcuts::{Hotkey, HotkeyKind};

fn ms(n: u64) -> u128 {
    Duration::from_millis(n).as_nanos()
}

/// Drives a fresh recognizer through a sequence and collects every emitted
/// gesture.
fn run(edges: &[(FnEdge, u64)]) -> Vec<Gesture> {
    let mut state = GestureState::default();
    edges
        .iter()
        .filter_map(|&(edge, at)| state.on_edge(edge, ms(at)))
        .collect()
}

#[test]
fn hold_emits_press_then_release() {
    assert_eq!(
        run(&[(FnEdge::Down, 0), (FnEdge::Up, 500)]),
        vec![Gesture::Press, Gesture::Release]
    );
}

#[test]
fn single_tap_emits_press_only() {
    assert_eq!(
        run(&[(FnEdge::Down, 0), (FnEdge::Up, 50)]),
        vec![Gesture::Press]
    );
}

#[test]
fn double_tap_emits_press_then_doubletap_and_swallows_second_up() {
    assert_eq!(
        run(&[
            (FnEdge::Down, 0),
            (FnEdge::Up, 50),
            (FnEdge::Down, 100),
            (FnEdge::Up, 150),
        ]),
        vec![Gesture::Press, Gesture::DoubleTap]
    );
}

#[test]
fn two_slow_taps_are_not_a_double_tap() {
    assert_eq!(
        run(&[(FnEdge::Down, 0), (FnEdge::Up, 50), (FnEdge::Down, 1000)]),
        vec![Gesture::Press, Gesture::Press]
    );
}

#[test]
fn stray_up_with_no_press_is_ignored() {
    assert_eq!(run(&[(FnEdge::Up, 0)]), vec![]);
}

#[test]
fn double_tap_then_independent_hold() {
    assert_eq!(
        run(&[
            (FnEdge::Down, 0),
            (FnEdge::Up, 50),
            (FnEdge::Down, 100),
            (FnEdge::Up, 150),
            (FnEdge::Down, 2000),
            (FnEdge::Up, 2500),
        ]),
        vec![
            Gesture::Press,
            Gesture::DoubleTap,
            Gesture::Press,
            Gesture::Release
        ]
    );
}

#[test]
fn hold_then_quick_repress_is_not_a_double_tap() {
    assert_eq!(
        run(&[(FnEdge::Down, 0), (FnEdge::Up, 400), (FnEdge::Down, 500)]),
        vec![Gesture::Press, Gesture::Release, Gesture::Press]
    );
}

#[test]
fn hold_threshold_boundary_is_a_release() {
    assert_eq!(
        run(&[(FnEdge::Down, 0), (FnEdge::Up, 350)]),
        vec![Gesture::Press, Gesture::Release]
    );
}

#[test]
fn just_under_hold_threshold_is_a_tap() {
    assert_eq!(
        run(&[(FnEdge::Down, 0), (FnEdge::Up, 349)]),
        vec![Gesture::Press]
    );
}

#[test]
fn double_tap_gap_boundary_is_exclusive() {
    assert_eq!(
        run(&[(FnEdge::Down, 0), (FnEdge::Up, 10), (FnEdge::Down, 410)]),
        vec![Gesture::Press, Gesture::Press]
    );
}

#[test]
fn custom_thresholds_are_honored() {
    // A recognizer built with a 100 ms hold and a 200 ms gap.
    let mut state = GestureState::new(ms(100), ms(200));
    assert_eq!(state.on_edge(FnEdge::Down, ms(0)), Some(Gesture::Press));
    assert_eq!(state.on_edge(FnEdge::Up, ms(100)), Some(Gesture::Release));
    assert_eq!(state.on_edge(FnEdge::Down, ms(1000)), Some(Gesture::Press));
    assert_eq!(state.on_edge(FnEdge::Up, ms(1050)), None);
    assert_eq!(state.on_edge(FnEdge::Down, ms(1249)), Some(Gesture::DoubleTap));
    assert_eq!(state.on_edge(FnEdge::Up, ms(1260)), None);
}

#[test]
fn input_monitoring_is_unknown_without_the_monitor() {
    assert_eq!(input_monitoring_status(), "unknown");
}

#[test]
fn gestures_reach_dictation_only_through_an_fn_binding() {
    let fn_hold = Hotkey { kind: HotkeyKind::Hold, key: "fn".into() };
    assert_eq!(route_gesture(&fn_hold, Gesture::Press), GestureRoute::Pressed);
    assert_eq!(route_gesture(&fn_hold, Gesture::Release), GestureRoute::Released);
    assert_eq!(route_gesture(&fn_hold, Gesture::DoubleTap), GestureRoute::Nothing);
    let accel = Hotkey { kind: HotkeyKind::Accelerator, key: "Alt+Space".into() };
    assert_eq!(route_gesture(&accel, Gesture::Press), GestureRoute::Nothing);
    let other_hold = Hotkey { kind: HotkeyKind::Hold, key: "RightAlt".into() };
    assert_eq!(route_gesture(&other_hold, Gesture::Release), GestureRoute::Nothing);
}
