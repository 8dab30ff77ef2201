//! The answer of a guard or lifecycle hook: continue, deny or redirect.

use vstd::prelude::*;

verus! {

/// Result of a navigation check (guard, lifecycle hook or middleware).
#[derive(Debug, Clone, PartialEq, Eq)]
pub enum NavigationAction {
    /// Allow navigation to proceed.
    Continue,
    /// Deny navigation with a reason.
    Deny {
        /// Human-readable reason for denying navigation.
        reason: String,
    },
    /// Redirect to a different path.
    Redirect {
        /// Path to redirect to.
        to: String,
        /// Optional human-readable reason for redirecting.
        reason: Option<String>,
    },
}

impl NavigationAction {
    /// A result that allows navigation to proceed.
    pub fn allow() -> (r: Self)
        ensures
            r is Continue,
    {
        NavigationAction::Continue
    }

    /// A result that blocks navigation with a human-readable reason.
    pub fn deny(reason: &str) -> (r: Self)
        ensures
            r matches NavigationAction::Deny { reason: rs } && rs@ == reason@,
    {
        NavigationAction::Deny { reason: reason.to_owned() }
    }

    /// A result that redirects navigation to a different path.
    pub fn redirect(to: &str) -> (r: Self)
        ensures
            r matches NavigationAction::Redirect { to: t, reason: rs } && t@ == to@ && rs is None,
    {
        NavigationAction::Redirect { to: to.to_owned(), reason: None }
    }

    /// A redirect result with a human-readable reason.
    pub fn redirect_with_reason(to: &str, reason: &str) -> (r: Self)
        ensures
            r matches NavigationAction::Redirect { to: t, reason: rs } && t@ == to@ && rs is Some
                && rs->0@ == reason@,
    {
        NavigationAction::Redirect { to: to.to_owned(), reason: Some(reason.to_owned()) }
    }

    /// Whether this action allows navigation to continue.
    pub fn is_continue(&self) -> (r: bool)
        ensures
            r == (*self is Continue),
    {
        match self {
            NavigationAction::Continue => true,
            _ => false,
        }
    }

    /// Whether this action denies navigation.
    pub fn is_deny(&self) -> (r: bool)
        ensures
            r == (*self is Deny),
    {
        match self {
            NavigationAction::Deny { .. } => true,
            _ => false,
        }
    }

    /// Whether this action redirects navigation.
    pub fn is_redirect(&self) -> (r: bool)
        ensures
            r == (*self is Redirect),
    {
        match self {
            NavigationAction::Redirect { .. } => true,
            _ => false,
        }
    }

    /// The redirect path, if this is a redirect action.
    pub fn redirect_path(&self) -> (r: Option<&str>)
        ensures
            match *self {
                NavigationAction::Redirect { to, .. } => r is Some && r->0@ == to@,
                _ => r is None,
            },
    {
        match self {
            NavigationAction::Redirect { to, .. } => Some(to.as_str()),
            _ => None,
        }
    }
}

} // verus!
