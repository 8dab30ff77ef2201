//! The decisions of the built-in guards, from the facts the application
//! supplies (whether the user is signed in, their role, whether they hold a
//! permission) to the answer of the guard.

use vstd::prelude::*;
use crate::lifecycle::NavigationAction;
use crate::text::{append_chars, chars_of, string_from_chars, str_eq};

verus! {

/// Priority of the authentication guard.
pub const AUTH_PRIORITY: i32 = 100;

/// Priority of the role guard.
pub const ROLE_PRIORITY: i32 = 90;

/// Priority of the permission guard.
pub const PERMISSION_PRIORITY: i32 = 80;

/// Priority of a guard that does not choose one.
pub const DEFAULT_PRIORITY: i32 = 0;

/// `a`, then `b`, then `c`.
fn concat3(a: &str, b: &str, c: &str) -> (r: String)
    ensures
        r@ == a@ + b@ + c@,
{
    let mut v: Vec<char> = Vec::new();
    append_chars(&mut v, &chars_of(a));
    append_chars(&mut v, &chars_of(b));
    append_chars(&mut v, &chars_of(c));
    string_from_chars(v.as_slice())
}

/// The authentication rule: signed-in users pass, others are sent to the
/// login path.
#[derive(Debug)]
pub struct AuthRule {
    /// Where users who are not signed in are sent.
    pub redirect_path: String,
}

impl AuthRule {
    /// A rule that sends users who are not signed in to `redirect_path`.
    pub fn new(redirect_path: &str) -> (r: Self)
        ensures
            r.redirect_path@ == redirect_path@,
    {
        AuthRule { redirect_path: redirect_path.to_owned() }
    }

    /// The answer for a user who is (or is not) signed in.
    pub fn decide(&self, authenticated: bool) -> (r: NavigationAction)
        ensures
            authenticated ==> r is Continue,
            !authenticated ==> (r matches NavigationAction::Redirect { to, reason } && to@
                == self.redirect_path@ && reason is Some && reason->0@
                == "Authentication required"@),
    {
        if authenticated {
            NavigationAction::Continue
        } else {
            NavigationAction::redirect_with_reason(
                self.redirect_path.as_str(),
                "Authentication required",
            )
        }
    }

    /// The guard's priority.
    pub fn priority(&self) -> (r: i32)
        ensures
            r == AUTH_PRIORITY,
    {
        AUTH_PRIORITY
    }
}

/// The role rule: users holding the required role pass; others are sent to
/// the redirect path if there is one, else refused.
#[derive(Debug)]
pub struct RoleRule {
    /// The role a user must hold.
    pub required_role: String,
    /// Where other users are sent, if anywhere.
    pub redirect_path: Option<String>,
}

impl RoleRule {
    /// A rule requiring `required_role`.
    pub fn new(required_role: &str, redirect_path: Option<&str>) -> (r: Self)
        ensures
            r.required_role@ == required_role@,
            match redirect_path {
                Some(p) => r.redirect_path is Some && r.redirect_path->0@ == p@,
                None => r.redirect_path is None,
            },
    {
        let redirect_path = match redirect_path {
            Some(p) => Some(p.to_owned()),
            None => None,
        };
        RoleRule { required_role: required_role.to_owned(), redirect_path }
    }

    /// The answer for a user with the given role (or none).
    pub fn decide(&self, role: Option<&str>) -> (r: NavigationAction)
        ensures
            (role is Some && role->0@ == self.required_role@) ==> r is Continue,
            !(role is Some && role->0@ == self.required_role@) ==> match self.redirect_path {
                Some(p) => r matches NavigationAction::Redirect { to, reason } && to@ == p@
                    && reason is Some && reason->0@ == "Requires '"@ + self.required_role@
                    + "' role"@,
                None => r matches NavigationAction::Deny { reason } && reason@
                    == "Missing required role: "@ + self.required_role@,
            },
    {
        let has_role = match role {
            Some(r) => str_eq(r, self.required_role.as_str()),
            None => false,
        };
        if has_role {
            NavigationAction::Continue
        } else {
            match &self.redirect_path {
                Some(p) => {
                    let reason = concat3("Requires '", self.required_role.as_str(), "' role");
                    NavigationAction::Redirect { to: p.clone(), reason: Some(reason) }
                },
                None => {
                    let reason = concat3("Missing required role: ", self.required_role.as_str(), "");
                    assert(""@ =~= Seq::<char>::empty()) by {
                        reveal_strlit("");
                    }
                    assert(reason@ =~= "Missing required role: "@ + self.required_role@);
                    NavigationAction::Deny { reason }
                },
            }
        }
    }

    /// The guard's priority.
    pub fn priority(&self) -> (r: i32)
        ensures
            r == ROLE_PRIORITY,
    {
        ROLE_PRIORITY
    }
}

/// The permission rule: users holding the permission pass; others are sent
/// to the redirect path if there is one, else refused.
#[derive(Debug)]
pub struct PermissionRule {
    /// The permission a user must hold.
    pub permission: String,
    /// Where other users are sent, if anywhere.
    pub redirect_path: Option<String>,
}

impl PermissionRule {
    /// A rule requiring `permission`, refusing other users.
    pub fn new(permission: &str) -> (r: Self)
        ensures
            r.permission@ == permission@,
            r.redirect_path is None,
    {
        PermissionRule { permission: permission.to_owned(), redirect_path: None }
    }

    /// The same rule, sending other users to `path` instead.
    pub fn with_redirect(self, path: &str) -> (r: Self)
        ensures
            r.permission == self.permission,
            r.redirect_path is Some && r.redirect_path->0@ == path@,
    {
        let mut r = self;
        r.redirect_path = Some(path.to_owned());
        r
    }

    /// The answer for a user who holds (or does not hold) the permission.
    pub fn decide(&self, allowed: bool) -> (r: NavigationAction)
        ensures
            allowed ==> r is Continue,
            !allowed ==> match self.redirect_path {
                Some(p) => r matches NavigationAction::Redirect { to, reason } && to@ == p@
                    && reason is Some && reason->0@ == "Missing permission: "@ + self.permission@,
                None => r matches NavigationAction::Deny { reason } && reason@
                    == "Missing permission: "@ + self.permission@,
            },
    {
        if allowed {
            return NavigationAction::Continue;
        }
        let reason = concat3("Missing permission: ", self.permission.as_str(), "");
        assert(""@ =~= Seq::<char>::empty()) by {
            reveal_strlit("");
        }
        assert(reason@ =~= "Missing permission: "@ + self.permission@);
        match &self.redirect_path {
            Some(p) => NavigationAction::Redirect { to: p.clone(), reason: Some(reason) },
            None => NavigationAction::Deny { reason },
        }
    }

    /// The guard's priority.
    pub fn priority(&self) -> (r: i32)
        ensures
            r == PERMISSION_PRIORITY,
    {
        PERMISSION_PRIORITY
    }
}

/// The answer of an inverted guard: a pass becomes a refusal, a refusal a
/// pass, and a redirect stays a redirect.
pub fn invert(verdict: NavigationAction) -> (r: NavigationAction)
    ensures
        verdict is Continue ==> (r matches NavigationAction::Deny { reason } && reason@
            == "Inverted: guard allowed but NOT expected"@),
        verdict is Deny ==> r is Continue,
        verdict is Redirect ==> r == verdict,
{
    match verdict {
        NavigationAction::Continue => NavigationAction::deny("Inverted: guard allowed but NOT expected"),
        NavigationAction::Deny { .. } => NavigationAction::Continue,
        redirect => redirect,
    }
}

/// The largest of the priorities, or [`DEFAULT_PRIORITY`] when there are
/// none: the priority of a composition of guards.
pub fn combined_priority(priorities: &Vec<i32>) -> (r: i32)
    ensures
        priorities@.len() == 0 ==> r == DEFAULT_PRIORITY,
        priorities@.len() > 0 ==> priorities@.contains(r) && forall|i: int|
            0 <= i < priorities@.len() ==> priorities@[i] <= r,
{
    if priorities.len() == 0 {
        return DEFAULT_PRIORITY;
    }
    let mut best = priorities[0];
    let mut i: usize = 1;
    while i < priorities.len()
        invariant
            1 <= i <= priorities@.len(),
            priorities@.contains(best),
            forall|j: int| 0 <= j < i ==> priorities@[j] <= best,
        decreases priorities@.len() - i,
    {
        if priorities[i] > best {
            best = priorities[i];
        }
        i = i + 1;
    }
    best
}

} // verus!
