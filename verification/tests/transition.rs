//! Transitions and per-route transition configuration.

use gpui_navigator::transition::OutletAnimation;
use gpui_navigator::{SlideDirection, Transition, TransitionConfig};
use std::time::Duration;

#[test]
fn test_slide_direction() {
    assert_eq!(SlideDirection::Left, SlideDirection::Left);
    assert_ne!(SlideDirection::Left, SlideDirection::Right);
}

#[test]
fn test_transition_none() {
    let transition = Transition::Instant;
    assert!(transition.is_none());
    assert_eq!(transition.duration(), Duration::ZERO);
}

#[test]
fn test_transition_fade() {
    let transition = Transition::fade(200);
    assert!(!transition.is_none());
    assert_eq!(transition.duration(), Duration::from_millis(200));
}

#[test]
fn test_transition_slide() {
    let transition = Transition::slide_left(300);
    assert!(!transition.is_none());
    assert_eq!(transition.duration(), Duration::from_millis(300));

    if let Transition::Slide { direction, .. } = transition {
        assert_eq!(direction, SlideDirection::Left);
    } else {
        panic!("Expected Slide transition");
    }
}

#[test]
fn test_transition_config_default() {
    let config = TransitionConfig::default();
    assert!(config.active().is_none());
    assert!(!config.has_override());
}

#[test]
fn test_transition_config_with_default() {
    let config = TransitionConfig::new(Transition::fade(200));
    assert!(!config.active().is_none());
    assert!(!config.has_override());
}

#[test]
fn test_transition_config_override() {
    let mut config = TransitionConfig::new(Transition::fade(200));

    config.set_override(Transition::slide_left(300));
    assert!(config.has_override());
    assert_eq!(config.active().duration(), Duration::from_millis(300));

    config.clear_override();
    assert!(!config.has_override());
    assert_eq!(config.active().duration(), Duration::from_millis(200));
}

#[test]
fn test_transition_helpers() {
    // Test all helper methods
    let _ = Transition::fade(200);
    let _ = Transition::slide_left(300);
    let _ = Transition::slide_right(300);
    let _ = Transition::slide_up(300);
    let _ = Transition::slide_down(300);
}

#[test]
fn test_outlet_animation_on_path_change() {
    let mut anim = OutletAnimation::new();
    assert!(!anim.observe("/a"));
    assert_eq!(anim.counter, 0);
    assert!(!anim.observe("/a"));
    assert!(anim.observe("/b"));
    assert_eq!(anim.counter, 1);
    assert_eq!(anim.last_path, "/b");
    anim.counter = u32::MAX;
    assert!(anim.observe("/c"));
    assert_eq!(anim.counter, 0);
}

#[test]
fn test_transition_durations() {
    assert_eq!(Transition::Instant.duration_ms(), 0);
    assert_eq!(Transition::slide_up(150).duration(), Duration::from_millis(150));
    assert_eq!(Transition::slide_down(150).duration_ms(), 150);
    match Transition::slide_right(10) {
        Transition::Slide { direction, duration_ms } => {
            assert_eq!(direction, SlideDirection::Right);
            assert_eq!(duration_ms, 10);
        }
        _ => panic!("expected a slide"),
    }
}
