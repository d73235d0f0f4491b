//! The edition plugin.

use crate::error::CoreError;
use crate::plugins::CheckResult;
use crate::plugins::ContextView;
use crate::plugins::Event;
use crate::plugins::Plugin;
use crate::plugins::PluginType;
use crate::plugins::PluginValidationContext;
use crate::plugins::ValidationResult;
use vstd::prelude::*;

verus! {

/// The edition plugin allows the creator to set an edition number on the asset.
/// It can only be attached when the asset is created and can never be removed.
#[derive(Clone, Copy, Debug, Default, PartialEq, Eq, Structural, Hash)]
pub struct Edition {
    /// The edition number.
    pub number: u32,
}

impl Edition {
    /// The events an edition plugin votes on.
    pub open spec fn spec_check(event: Event) -> CheckResult {
        match event {
            Event::AddPlugin => CheckResult::CanReject,
            Event::RemovePlugin => CheckResult::CanReject,
            Event::RevokePluginAuthority => CheckResult::CanApprove,
            _ => CheckResult::NoVote,
        }
    }

    /// The events an edition plugin votes on.
    pub fn check(event: Event) -> (r: CheckResult)
        ensures
            r == Self::spec_check(event),
    {
        match event {
            Event::AddPlugin => CheckResult::CanReject,
            Event::RemovePlugin => CheckResult::CanReject,
            Event::RevokePluginAuthority => CheckResult::CanApprove,
            _ => CheckResult::NoVote,
        }
    }

    /// The operation is about an edition plugin.
    pub open spec fn targets_edition(ctx: ContextView) -> bool {
        ctx.target_plugin matches Some(Plugin::Edition(_))
    }

    /// The vote on attaching a plugin: an edition can only be attached at
    /// creation, so attaching one later is rejected whoever asks.
    pub open spec fn spec_validate_add_plugin(self, ctx: ContextView) -> ValidationResult {
        if Self::targets_edition(ctx) {
            ValidationResult::Rejected
        } else {
            ValidationResult::Pass
        }
    }

    /// The vote on removing a plugin: an edition cannot be removed.
    pub open spec fn spec_validate_remove_plugin(self, ctx: ContextView) -> ValidationResult {
        if Self::targets_edition(ctx) {
            ValidationResult::Rejected
        } else {
            ValidationResult::Pass
        }
    }

    /// The vote on revoking a plugin authority: approved when the plugin in
    /// question is the edition and the actor is one of its own authorities.
    pub open spec fn spec_validate_revoke_plugin_authority(
        self,
        ctx: ContextView,
    ) -> ValidationResult {
        if ctx.actor_is_self_authority() && Self::targets_edition(ctx) {
            ValidationResult::Approved
        } else {
            ValidationResult::Pass
        }
    }

    /// The vote of an edition plugin on `event`.
    pub open spec fn spec_validate(self, event: Event, ctx: ContextView) -> ValidationResult {
        match event {
            Event::AddPlugin => self.spec_validate_add_plugin(ctx),
            Event::RemovePlugin => self.spec_validate_remove_plugin(ctx),
            Event::RevokePluginAuthority => self.spec_validate_revoke_plugin_authority(ctx),
            _ => ValidationResult::Pass,
        }
    }

    /// Validate the add plugin lifecycle action.
    pub fn validate_add_plugin(&self, ctx: &PluginValidationContext) -> (r: Result<
        ValidationResult,
        CoreError,
    >)
        ensures
            r == Ok::<ValidationResult, CoreError>(self.spec_validate_add_plugin(ctx@)),
    {
        // This plugin can only be added at creation time, so we
        // always reject it.
        match ctx.target_plugin {
            Some(Plugin::Edition(_edition)) => Ok(ValidationResult::Rejected),
            _ => Ok(ValidationResult::Pass),
        }
    }

    /// Validate the remove plugin lifecycle action.
    pub fn validate_remove_plugin(&self, ctx: &PluginValidationContext) -> (r: Result<
        ValidationResult,
        CoreError,
    >)
        ensures
            r == Ok::<ValidationResult, CoreError>(self.spec_validate_remove_plugin(ctx@)),
    {
        // This plugin cannot be removed
        // always reject it.
        match ctx.target_plugin {
            Some(Plugin::Edition(_edition)) => Ok(ValidationResult::Rejected),
            _ => Ok(ValidationResult::Pass),
        }
    }

    /// Validate the revoke plugin authority lifecycle action.
    pub fn validate_revoke_plugin_authority(&self, ctx: &PluginValidationContext) -> (r: Result<
        ValidationResult,
        CoreError,
    >)
        ensures
            r == Ok::<ValidationResult, CoreError>(
                self.spec_validate_revoke_plugin_authority(ctx@),
            ),
    {
        if ctx.actor_is_self_authority() && ctx.target_plugin.is_some() && PluginType::from(
            &ctx.target_plugin.unwrap(),
        ) == PluginType::Edition {
            Ok(ValidationResult::Approved)
        } else {
            Ok(ValidationResult::Pass)
        }
    }

    /// Asks the plugin for its vote on `event`.
    pub fn validate(&self, event: Event, ctx: &PluginValidationContext) -> (r: Result<
        ValidationResult,
        CoreError,
    >)
        ensures
            r == Ok::<ValidationResult, CoreError>(self.spec_validate(event, ctx@)),
    {
        match event {
            Event::AddPlugin => self.validate_add_plugin(ctx),
            Event::RemovePlugin => self.validate_remove_plugin(ctx),
            Event::RevokePluginAuthority => self.validate_revoke_plugin_authority(ctx),
            _ => Ok(ValidationResult::Pass),
        }
    }
}

} // verus!
