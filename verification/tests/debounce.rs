use onewire_core::debounce::{DebounceState, Edge};

fn feed(state: &mut DebounceState, samples: &[bool]) -> Vec<Option<Edge>> {
    samples.iter().map(|s| state.update(*s)).collect()
}

#[test]
fn released_line_pressed_twice_rises_once() {
    let mut state = DebounceState::new(false);
    let out = feed(&mut state, &[true, true, false, true, true]);
    assert_eq!(out, vec![None, Some(Edge::Rising), None, None, None]);
    assert!(state.confirmed());
}

#[test]
fn first_tick_after_boot_is_silent() {
    for initial in [false, true] {
        for sample in [false, true] {
            let mut state = DebounceState::new(initial);
            assert_eq!(state.update(sample), None);
            assert_eq!(state.confirmed(), initial);
        }
    }
}

#[test]
fn isolated_glitches_never_yield_an_edge() {
    let mut state = DebounceState::new(false);
    let out = feed(&mut state, &[true, false, true, false, false, true, false, true, false]);
    assert!(out.iter().all(|e| e.is_none()));
    assert!(!state.confirmed());

    let mut state = DebounceState::new(true);
    let out = feed(&mut state, &[false, true, false, true, true, false, true]);
    assert!(out.iter().all(|e| e.is_none()));
    assert!(state.confirmed());
}

#[test]
fn press_and_release_yield_one_edge_each() {
    let mut state = DebounceState::new(false);
    let out = feed(&mut state, &[true, true, true, true, false, false, false, true, true]);
    assert_eq!(
        out,
        vec![
            None,
            Some(Edge::Rising),
            None,
            None,
            None,
            Some(Edge::Falling),
            None,
            None,
            Some(Edge::Rising),
        ]
    );
}

#[test]
fn pressed_at_boot_falls_after_two_released_samples() {
    let mut state = DebounceState::new(true);
    assert_eq!(state.update(false), None);
    assert_eq!(state.update(false), Some(Edge::Falling));
    assert!(!state.confirmed());
    assert_eq!(state.update(true), None);
    assert_eq!(state.update(true), Some(Edge::Rising));
    assert!(state.confirmed());
}

#[test]
fn samples_at_the_confirmed_level_are_silent() {
    let mut state = DebounceState::new(false);
    let out = feed(&mut state, &[false, false, false]);
    assert_eq!(out, vec![None, None, None]);
    let mut state = DebounceState::new(true);
    let out = feed(&mut state, &[true, true, false, false]);
    assert_eq!(out, vec![None, None, None, Some(Edge::Falling)]);
}

#[test]
fn contradicting_sample_restarts_the_count() {
    let mut state = DebounceState::new(false);
    assert_eq!(state.update(true), None);
    assert_eq!(state.update(false), None);
    assert_eq!(state.update(true), None);
    assert_eq!(state.update(true), Some(Edge::Rising));
}

#[test]
fn edge_matches_two_opposite_samples_on_every_short_sequence() {
    for initial in [false, true] {
        for bits in 0u32..(1 << 10) {
            let samples: Vec<bool> = (0..10).map(|i| (bits >> i) & 1 == 1).collect();
            let mut state = DebounceState::new(initial);
            for i in 0..samples.len() {
                let level = state.confirmed();
                let edge = state.update(samples[i]);
                let expected = i >= 1 && samples[i - 1] != level && samples[i] != level;
                assert_eq!(edge.is_some(), expected);
                if let Some(found) = edge {
                    let towards = if samples[i] { Edge::Rising } else { Edge::Falling };
                    assert_eq!(found, towards);
                    assert_eq!(state.confirmed(), samples[i]);
                } else {
                    assert_eq!(state.confirmed(), level);
                }
            }
        }
    }
}

#[test]
fn edges_are_reported_as_zero_and_one() {
    assert_eq!(Edge::Rising.code(), 0);
    assert_eq!(Edge::Falling.code(), 1);
}
