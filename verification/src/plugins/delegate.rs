//! The delegate plugin.

use crate::error::CoreError;
use crate::plugins::CheckResult;
use crate::plugins::ContextView;
use crate::plugins::Event;
use crate::plugins::Plugin;
use crate::plugins::PluginValidationContext;
use crate::plugins::ValidationResult;
use vstd::prelude::*;

verus! {

/// The delegate plugin lets its authorities transfer the asset on the
/// holder's behalf and freeze it. A frozen asset can be neither transferred
/// nor burned by anyone.
#[derive(Clone, Copy, Debug, Default, PartialEq, Eq, Structural, Hash)]
pub struct Delegate {
    /// Whether the asset is frozen.
    pub frozen: bool,
}

impl Delegate {
    /// The events a delegate plugin votes on.
    pub open spec fn spec_check(event: Event) -> CheckResult {
        match event {
            Event::Transfer => CheckResult::CanApprove,
            Event::Burn => CheckResult::CanReject,
            Event::RevokePluginAuthority => CheckResult::CanApprove,
            _ => CheckResult::NoVote,
        }
    }

    /// The events a delegate plugin votes on.
    pub fn check(event: Event) -> (r: CheckResult)
        ensures
            r == Self::spec_check(event),
    {
        match event {
            Event::Transfer => CheckResult::CanApprove,
            Event::Burn => CheckResult::CanReject,
            Event::RevokePluginAuthority => CheckResult::CanApprove,
            _ => CheckResult::NoVote,
        }
    }

    /// The vote of a delegate plugin on `event`: a frozen asset is neither
    /// transferred nor burned; an unfrozen one may be transferred by a
    /// delegate; a delegate may give up its own authority.
    pub open spec fn spec_validate(self, event: Event, ctx: ContextView) -> ValidationResult {
        match event {
            Event::Transfer => if self.frozen {
                ValidationResult::Rejected
            } else if ctx.actor_is_self_authority() {
                ValidationResult::Approved
            } else {
                ValidationResult::Pass
            },
            Event::Burn => if self.frozen {
                ValidationResult::Rejected
            } else {
                ValidationResult::Pass
            },
            Event::RevokePluginAuthority => if ctx.actor_is_self_authority() && (
            ctx.target_plugin matches Some(Plugin::Delegate(_))) {
                ValidationResult::Approved
            } else {
                ValidationResult::Pass
            },
            _ => ValidationResult::Pass,
        }
    }

    /// Asks the plugin for its vote on `event`.
    pub fn validate(&self, event: Event, ctx: &PluginValidationContext) -> (r: Result<
        ValidationResult,
        CoreError,
    >)
        ensures
            r == Ok::<ValidationResult, CoreError>(self.spec_validate(event, ctx@)),
    {
        match event {
            Event::Transfer => {
                if self.frozen {
                    Ok(ValidationResult::Rejected)
                } else if ctx.actor_is_self_authority() {
                    Ok(ValidationResult::Approved)
                } else {
                    Ok(ValidationResult::Pass)
                }
            },
            Event::Burn => {
                if self.frozen {
                    Ok(ValidationResult::Rejected)
                } else {
                    Ok(ValidationResult::Pass)
                }
            },
            Event::RevokePluginAuthority => {
                let about_delegate = match ctx.target_plugin {
                    Some(Plugin::Delegate(_)) => true,
                    _ => false,
                };
                if about_delegate && ctx.actor_is_self_authority() {
                    Ok(ValidationResult::Approved)
                } else {
                    Ok(ValidationResult::Pass)
                }
            },
            _ => Ok(ValidationResult::Pass),
        }
    }
}

} // verus!
