//! Declarative route transition descriptions and the per-route transition
//! configuration with a one-off override.

use vstd::prelude::*;
use std::time::Duration;

verus! {

/// Direction for slide transitions.
#[derive(Debug, Clone, Copy, PartialEq, Eq, Hash)]
#[non_exhaustive]
pub enum SlideDirection {
    /// Slide from left to right
    Left,
    /// Slide from right to left
    Right,
    /// Slide from top to bottom
    Up,
    /// Slide from bottom to top
    Down,
}

/// Built-in transition types for route animations.
#[derive(Debug, Clone)]
#[non_exhaustive]
pub enum Transition {
    /// No transition animation: the new content appears instantly
    Instant,
    /// Cross-fade: old content fades out while new content fades in
    Fade {
        /// Duration in milliseconds
        duration_ms: u64,
    },
    /// Slide transition
    Slide {
        /// Direction to slide
        direction: SlideDirection,
        /// Duration in milliseconds
        duration_ms: u64,
    },
}

/// The `Duration` that `Duration::from_millis` builds from a millisecond count.
pub uninterp spec fn millis_duration(ms: u64) -> Duration;

/// Calls `std::time::Duration::from_millis`; the result is named
/// `millis_duration(ms)`, a function of `ms` alone (the whole-second and
/// sub-second split is not restated here).
#[verifier::external_body]
fn duration_from_millis(ms: u64) -> (d: Duration)
    ensures
        d == millis_duration(ms),
{
    Duration::from_millis(ms)
}

/// Returns `std::time::Duration::ZERO`, "a duration of zero time": the
/// value that `Duration::from_millis(0)` also builds, so the result is
/// stated as `millis_duration(0)`.
#[verifier::external_body]
fn zero_duration() -> (d: Duration)
    ensures
        d == millis_duration(0),
{
    Duration::ZERO
}

/// Animation length of a transition in milliseconds (zero for no animation).
pub open spec fn spec_duration_ms(t: Transition) -> u64 {
    match t {
        Transition::Instant => 0,
        Transition::Fade { duration_ms } => duration_ms,
        Transition::Slide { duration_ms, .. } => duration_ms,
    }
}

impl Default for Transition {
    fn default() -> (r: Self)
        ensures
            r is Instant,
    {
        Transition::Instant
    }
}

impl Transition {
    /// Create a cross-fade transition.
    pub fn fade(duration_ms: u64) -> (r: Self)
        ensures
            r == (Transition::Fade { duration_ms }),
    {
        Transition::Fade { duration_ms }
    }

    /// Create a slide-left transition.
    pub fn slide_left(duration_ms: u64) -> (r: Self)
        ensures
            r == (Transition::Slide { direction: SlideDirection::Left, duration_ms }),
    {
        Transition::Slide { direction: SlideDirection::Left, duration_ms }
    }

    /// Create a slide-right transition.
    pub fn slide_right(duration_ms: u64) -> (r: Self)
        ensures
            r == (Transition::Slide { direction: SlideDirection::Right, duration_ms }),
    {
        Transition::Slide { direction: SlideDirection::Right, duration_ms }
    }

    /// Create a slide-up transition.
    pub fn slide_up(duration_ms: u64) -> (r: Self)
        ensures
            r == (Transition::Slide { direction: SlideDirection::Up, duration_ms }),
    {
        Transition::Slide { direction: SlideDirection::Up, duration_ms }
    }

    /// Create a slide-down transition.
    pub fn slide_down(duration_ms: u64) -> (r: Self)
        ensures
            r == (Transition::Slide { direction: SlideDirection::Down, duration_ms }),
    {
        Transition::Slide { direction: SlideDirection::Down, duration_ms }
    }

    /// Animation length in milliseconds (zero for [`Transition::Instant`]).
    pub fn duration_ms(&self) -> (r: u64)
        ensures
            r == spec_duration_ms(*self),
    {
        match self {
            Transition::Instant => 0,
            Transition::Fade { duration_ms } => *duration_ms,
            Transition::Slide { duration_ms, .. } => *duration_ms,
        }
    }

    /// Animation length as a `Duration`: `Duration::ZERO` for
    /// [`Transition::Instant`], otherwise `Duration::from_millis` of the
    /// transition's milliseconds.
    pub fn duration(&self) -> (r: Duration)
        ensures
            r == millis_duration(spec_duration_ms(*self)),
    {
        match self {
            Transition::Instant => zero_duration(),
            Transition::Fade { duration_ms } => duration_from_millis(*duration_ms),
            Transition::Slide { duration_ms, .. } => duration_from_millis(*duration_ms),
        }
    }

    /// Whether this is the no-op transition.
    pub fn is_none(&self) -> (r: bool)
        ensures
            r == (*self is Instant),
    {
        match self {
            Transition::Instant => true,
            _ => false,
        }
    }

    /// A copy of this transition.
    pub fn copied(&self) -> (r: Self)
        ensures
            r == *self,
    {
        match self {
            Transition::Instant => Transition::Instant,
            Transition::Fade { duration_ms } => Transition::Fade { duration_ms: *duration_ms },
            Transition::Slide { direction, duration_ms } => Transition::Slide {
                direction: *direction,
                duration_ms: *duration_ms,
            },
        }
    }
}

/// Per-route transition configuration with an optional one-off override.
#[derive(Debug)]
pub struct TransitionConfig {
    /// Default transition for this route
    pub default: Transition,
    /// Override transition for the next navigation
    pub override_next: Option<Transition>,
}

impl Clone for TransitionConfig {
    fn clone(&self) -> (r: Self)
        ensures
            r == *self,
    {
        TransitionConfig {
            default: self.default.copied(),
            override_next: match &self.override_next {
                Some(t) => Some(t.copied()),
                None => None,
            },
        }
    }
}

impl Default for TransitionConfig {
    fn default() -> (r: Self)
        ensures
            r.default is Instant,
            r.override_next is None,
    {
        TransitionConfig { default: Transition::Instant, override_next: None }
    }
}

/// The transition a configuration applies: the override when one is set.
pub open spec fn spec_active(c: TransitionConfig) -> Transition {
    match c.override_next {
        Some(t) => t,
        None => c.default,
    }
}

impl TransitionConfig {
    /// Create a configuration with a default transition and no override.
    pub fn new(default: Transition) -> (r: Self)
        ensures
            r.default == default,
            r.override_next is None,
    {
        TransitionConfig { default, override_next: None }
    }

    /// The active transition (override if set, otherwise the default).
    pub fn active(&self) -> (r: &Transition)
        ensures
            *r == spec_active(*self),
    {
        match &self.override_next {
            Some(t) => t,
            None => &self.default,
        }
    }

    /// Set an override transition for the next navigation.
    pub fn set_override(&mut self, transition: Transition)
        ensures
            final(self).override_next == Some(transition),
            final(self).default == old(self).default,
    {
        self.override_next = Some(transition);
    }

    /// Clear the override transition.
    pub fn clear_override(&mut self)
        ensures
            final(self).override_next is None,
            final(self).default == old(self).default,
    {
        self.override_next = None;
    }

    /// Whether an override is set.
    pub fn has_override(&self) -> (r: bool)
        ensures
            r == (self.override_next is Some),
    {
        self.override_next.is_some()
    }
}


/// What an outlet remembers between renders to animate content changes:
/// the path it rendered last and a counter that names each animation.
#[derive(Debug)]
pub struct OutletAnimation {
    /// The path rendered last (empty before the first render).
    pub last_path: String,
    /// The number of animations started so far, wrapping around.
    pub counter: u32,
}

impl OutletAnimation {
    /// Nothing rendered yet.
    pub fn new() -> (r: Self)
        ensures
            r.last_path@.len() == 0,
            r.counter == 0,
    {
        OutletAnimation { last_path: String::new(), counter: 0 }
    }

    /// Record a render of `path`. The content animates in when the path
    /// differs from the one rendered before (the first render does not
    /// animate); each animation advances the counter, wrapping around.
    pub fn observe(&mut self, path: &str) -> (animate: bool)
        ensures
            animate == (old(self).last_path@.len() > 0 && path@ != old(self).last_path@),
            final(self).last_path@ == path@,
            final(self).counter == if animate {
                if old(self).counter == u32::MAX {
                    0
                } else {
                    (old(self).counter + 1) as u32
                }
            } else {
                old(self).counter
            },
    {
        let animate = self.last_path.as_str().unicode_len() > 0 && !crate::text::str_eq(
            self.last_path.as_str(),
            path,
        );
        if animate {
            self.counter = self.counter.wrapping_add(1);
        }
        self.last_path = path.to_owned();
        animate
    }
}

} // verus!
