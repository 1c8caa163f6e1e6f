//! The change notifier: tells other live processes that the environment
//! changed, and reports whether this execution context holds elevated
//! authority.
//!
//! The notifier is an explicit state handle: whether the context is
//! elevated, and whether the broadcast primitive works. A process that is
//! already running never picks the change up regardless of the broadcast; a
//! platform limitation this component documents rather than solves.

use vstd::prelude::*;

use crate::error::EnvError;
use crate::error::EnvResult;
use crate::variable::EnvScope;

verus! {

/// The broadcaster of "environment changed" notifications.
#[derive(Debug, Clone, Copy)]
pub struct EnvironmentRefresher {
    /// The execution context holds elevated authority.
    pub elevated: bool,
    /// The broadcast primitive succeeds when invoked.
    pub broadcast_ok: bool,
}

impl EnvironmentRefresher {
    /// A notifier for an ordinary, non-elevated context with a working
    /// broadcast primitive.
    pub fn new() -> (r: Self)
        ensures
            !r.elevated,
            r.broadcast_ok,
    {
        EnvironmentRefresher { elevated: false, broadcast_ok: true }
    }

    /// A notifier with chosen elevation and broadcast behaviour.
    pub fn with_state(elevated: bool, broadcast_ok: bool) -> (r: Self)
        ensures
            r.elevated == elevated,
            r.broadcast_ok == broadcast_ok,
    {
        EnvironmentRefresher { elevated, broadcast_ok }
    }

    /// Synchronous broadcast that the environment namespace changed, with a
    /// bounded wait for acknowledgment; a hung listener does not fail the
    /// call, only a failed broadcast primitive does.
    pub fn refresh_environment(&self) -> (r: EnvResult<()>)
        ensures
            r is Ok <==> self.broadcast_ok,
            r is Err ==> r matches Err(EnvError::RefreshFailed(_)),
    {
        self.broadcast_setting_change("Environment")
    }

    /// Broadcast a change of the named settings section.
    #[allow(unused_variables)]
    pub fn broadcast_setting_change(&self, section: &str) -> (r: EnvResult<()>)
        ensures
            r is Ok <==> self.broadcast_ok,
            r is Err ==> r matches Err(EnvError::RefreshFailed(_)),
    {
        if self.broadcast_ok {
            Ok(())
        } else {
            Err(EnvError::RefreshFailed("failed to broadcast setting-change message".to_owned()))
        }
    }

    /// Fire-and-forget broadcast: returns at once and never surfaces a
    /// failure to the caller; a failed broadcast is dropped.
    pub fn refresh_environment_async(&self)
    {
        let _ = self.broadcast_setting_change("Environment");
    }

    /// Broadcast after a mutation in `scope`; the broadcast itself is
    /// scope-independent.
    #[allow(unused_variables)]
    pub fn refresh_scope(&self, scope: EnvScope) -> (r: EnvResult<()>)
        ensures
            r is Ok <==> self.broadcast_ok,
            r is Err ==> r matches Err(EnvError::RefreshFailed(_)),
    {
        self.refresh_environment()
    }

    /// True when mutating `scope` needs elevated authority.
    pub fn check_admin_permission(&self, scope: EnvScope) -> (r: bool)
        ensures
            r == (scope is System),
    {
        match scope {
            EnvScope::User => false,
            EnvScope::System => true,
        }
    }

    /// Whether this execution context holds elevated authority.
    pub fn is_user_admin(&self) -> (r: bool)
        ensures
            r == self.elevated,
    {
        self.elevated
    }
}

} // verus!
