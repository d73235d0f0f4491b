//! The royalties plugin.

use crate::error::CoreError;
use crate::plugins::CheckResult;
use crate::plugins::ContextView;
use crate::plugins::Event;
use crate::plugins::Plugin;
use crate::plugins::PluginValidationContext;
use crate::plugins::ValidationResult;
use crate::state::Pubkey;
use vstd::prelude::*;

verus! {

/// The royalties plugin records the royalty that is due on a sale of the
/// asset and the creator that receives it. The creator named in the plugin
/// may change it.
#[derive(Clone, Copy, Debug, PartialEq, Eq, Structural, Hash)]
pub struct Royalties {
    /// The royalty in basis points.
    pub basis_points: u32,
    /// The creator that receives the royalty.
    pub creator: Pubkey,
    /// The share of the creator in percent.
    pub percentage: u8,
    /// Whether marketplaces must enforce the royalty.
    pub enforced: bool,
    /// Whether the first sale of the asset has happened.
    pub primary_sale_happened: bool,
}

impl Royalties {
    /// The events a royalties plugin votes on.
    pub open spec fn spec_check(event: Event) -> CheckResult {
        match event {
            Event::UpdatePlugin => CheckResult::CanApprove,
            _ => CheckResult::NoVote,
        }
    }

    /// The events a royalties plugin votes on.
    pub fn check(event: Event) -> (r: CheckResult)
        ensures
            r == Self::spec_check(event),
    {
        match event {
            Event::UpdatePlugin => CheckResult::CanApprove,
            _ => CheckResult::NoVote,
        }
    }

    /// The vote of a royalties plugin on `event`: its creator may write a
    /// new state for it.
    pub open spec fn spec_validate(self, event: Event, ctx: ContextView) -> ValidationResult {
        match event {
            Event::UpdatePlugin => if ctx.authority == self.creator && (
            ctx.target_plugin matches Some(Plugin::Royalties(_))) {
                ValidationResult::Approved
            } else {
                ValidationResult::Pass
            },
            _ => ValidationResult::Pass,
        }
    }

    /// Asks the plugin for its vote on `event`.
    pub fn validate(&self, event: Event, ctx: &PluginValidationContext) -> (r: Result<
        ValidationResult,
        CoreError,
    >)
        ensures
            r == Ok::<ValidationResult, CoreError>(self.spec_validate(event, ctx@)),
    {
        match event {
            Event::UpdatePlugin => {
                let about_royalties = match ctx.target_plugin {
                    Some(Plugin::Royalties(_)) => true,
                    _ => false,
                };
                if about_royalties && ctx.authority == self.creator {
                    Ok(ValidationResult::Approved)
                } else {
                    Ok(ValidationResult::Pass)
                }
            },
            _ => Ok(ValidationResult::Pass),
        }
    }
}

} // verus!
