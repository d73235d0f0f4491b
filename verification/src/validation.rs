//! The validation pipeline: for one lifecycle event, the core entity and
//! every plugin concerned cast a vote, and the votes are folded into one
//! decision. A single rejection is final; without a rejection one approval
//! suffices; when everybody abstains the operation is denied.

use crate::authority::has_authority;
use crate::authority::holds;
use crate::authority::parent_view;
use crate::authority::Parent;
use crate::authority::ParentView;
use crate::entity::attachments_view;
use crate::entity::AttachedPlugin;
use crate::entity::Entity;
use crate::model::Attachment;
use crate::model::EntityView;
use crate::plugins::CheckResult;
use crate::plugins::ContextView;
use crate::plugins::Event;
use crate::plugins::Plugin;
use crate::plugins::PluginType;
use crate::plugins::PluginValidationContext;
use crate::plugins::ValidationResult;
use crate::state::Authority;
use crate::state::Core;
use crate::state::CoreView;
use crate::state::Pubkey;
use vstd::prelude::*;

verus! {

/// How the validation of one event ends.
#[derive(Clone, Copy, Debug, PartialEq, Eq, Structural, Hash)]
pub enum Decision {
    /// Nobody rejected and somebody approved.
    Approved,
    /// Somebody rejected.
    Rejected,
    /// Everybody abstained.
    Denied,
}

/// The decision that a sequence of votes amounts to.
pub open spec fn arbitrate(votes: Seq<ValidationResult>) -> Decision {
    if votes.contains(ValidationResult::Rejected) {
        Decision::Rejected
    } else if votes.contains(ValidationResult::Approved) {
        Decision::Approved
    } else {
        Decision::Denied
    }
}

/// Folds `votes` into a decision, stopping at the first rejection.
pub fn tally(votes: &Vec<ValidationResult>) -> (decision: Decision)
    ensures
        decision == arbitrate(votes@),
{
    let mut approved = false;
    let mut i: usize = 0;
    while i < votes.len()
        invariant
            i <= votes.len(),
            forall|j: int| 0 <= j < i ==> votes@[j] != ValidationResult::Rejected,
            approved == (exists|j: int| 0 <= j < i && votes@[j] == ValidationResult::Approved),
        decreases votes.len() - i,
    {
        match votes[i] {
            ValidationResult::Rejected => {
                return Decision::Rejected;
            },
            ValidationResult::Approved => {
                approved = true;
            },
            ValidationResult::Pass => {},
        }
        i += 1;
    }
    if approved {
        Decision::Approved
    } else {
        Decision::Denied
    }
}

/// Law of arbitration: one rejection makes the decision a rejection,
/// whatever the other votes are.
pub proof fn lemma_rejection_is_absolute(votes: Seq<ValidationResult>, i: int)
    requires
        0 <= i < votes.len(),
        votes[i] == ValidationResult::Rejected,
    ensures
        arbitrate(votes) == Decision::Rejected,
{
}

/// Law of arbitration: when nobody votes, or everybody abstains, the
/// operation is denied.
pub proof fn lemma_default_deny(votes: Seq<ValidationResult>)
    requires
        forall|i: int| 0 <= i < votes.len() ==> votes[i] == ValidationResult::Pass,
    ensures
        arbitrate(votes) == Decision::Denied,
{
}

/// Law of arbitration: without a rejection, one approval is enough.
pub proof fn lemma_approval_suffices(votes: Seq<ValidationResult>, i: int)
    requires
        0 <= i < votes.len(),
        votes[i] == ValidationResult::Approved,
        forall|j: int| 0 <= j < votes.len() ==> votes[j] != ValidationResult::Rejected,
    ensures
        arbitrate(votes) == Decision::Approved,
{
}

/// Whether an asset, as the core entity, votes on `event`.
pub open spec fn asset_check(event: Event) -> CheckResult {
    CheckResult::CanApprove
}

/// Whether a collection, as the core entity, votes on `event`. A collection
/// is neither transferred nor burned nor compressed.
pub open spec fn collection_check(event: Event) -> CheckResult {
    match event {
        Event::Transfer => CheckResult::NoVote,
        Event::Burn => CheckResult::NoVote,
        Event::Compress => CheckResult::NoVote,
        Event::Decompress => CheckResult::NoVote,
        _ => CheckResult::CanApprove,
    }
}

/// The authority that the core entity asks of the actor: the update
/// authority for a change of the metadata, the holder for everything else.
pub open spec fn required_for(event: Event) -> Authority {
    match event {
        Event::Update => Authority::UpdateAuthority,
        _ => Authority::Owner,
    }
}

/// The vote of a core entity that votes: it approves the actor that holds
/// the authority the event asks for, and abstains otherwise.
pub open spec fn core_validate(
    core: CoreView,
    parent: Option<ParentView>,
    event: Event,
    actor: Pubkey,
) -> ValidationResult {
    if holds(core, parent, actor, required_for(event)) {
        ValidationResult::Approved
    } else {
        ValidationResult::Pass
    }
}

/// The vote of the core: of the entity itself when its kind votes on the
/// event, else of its collection when there is one and it votes.
pub open spec fn core_vote(
    core: CoreView,
    parent: Option<ParentView>,
    event: Event,
    actor: Pubkey,
) -> ValidationResult {
    match core {
        CoreView::Asset { .. } => if asset_check(event) != CheckResult::NoVote {
            core_validate(core, parent, event, actor)
        } else {
            match parent {
                Some(parent) => if collection_check(event) != CheckResult::NoVote {
                    core_validate(parent.entity.core, None, event, actor)
                } else {
                    ValidationResult::Pass
                },
                None => ValidationResult::Pass,
            }
        },
        CoreView::Collection { .. } => if collection_check(event) != CheckResult::NoVote {
            core_validate(core, parent, event, actor)
        } else {
            ValidationResult::Pass
        },
    }
}

/// The vote of an attached plugin: its own when its kind votes on the
/// event, an abstention otherwise.
pub open spec fn plugin_vote(
    attachment: Attachment,
    event: Event,
    actor: Pubkey,
    target: Option<Plugin>,
) -> ValidationResult {
    if PluginType::spec_of(attachment.plugin).spec_check(event) == CheckResult::NoVote {
        ValidationResult::Pass
    } else {
        attachment.plugin.spec_validate(
            event,
            ContextView {
                self_authorities: attachment.authorities,
                authority: actor,
                target_plugin: target,
            },
        )
    }
}

/// Whether one of `attachments` holds a plugin of kind `kind`.
pub open spec fn holds_kind(attachments: Seq<Attachment>, kind: PluginType) -> bool {
    exists|i: int|
        0 <= i < attachments.len() && PluginType::spec_of((#[trigger] attachments[i]).plugin)
            == kind
}

/// The vote of a plugin of the collection: it is asked only when the
/// entity itself holds no plugin of the same kind.
pub open spec fn parent_vote(
    attachment: Attachment,
    own: Seq<Attachment>,
    event: Event,
    actor: Pubkey,
    target: Option<Plugin>,
) -> ValidationResult {
    if holds_kind(own, PluginType::spec_of(attachment.plugin)) {
        ValidationResult::Pass
    } else {
        plugin_vote(attachment, event, actor, target)
    }
}

/// The vote of the plugin that is about to be attached. It is asked so
/// that a plugin that may only be attached at creation can refuse.
pub open spec fn target_vote(event: Event, actor: Pubkey, target: Option<Plugin>) -> ValidationResult {
    match target {
        Some(plugin) => if event == Event::AddPlugin {
            plugin_vote(Attachment { plugin, authorities: Seq::empty() }, event, actor, target)
        } else {
            ValidationResult::Pass
        },
        None => ValidationResult::Pass,
    }
}

/// The attachments of an optional parent.
pub open spec fn parent_attachments(parent: Option<ParentView>) -> Seq<Attachment> {
    match parent {
        Some(parent) => parent.entity.attachments(),
        None => Seq::empty(),
    }
}

/// The votes of the plugins of the collection, in the order of its registry.
pub open spec fn parent_votes(
    entity: EntityView,
    parent: Option<ParentView>,
    event: Event,
    actor: Pubkey,
    target: Option<Plugin>,
) -> Seq<ValidationResult> {
    Seq::new(
        parent_attachments(parent).len(),
        |k: int| parent_vote(parent_attachments(parent)[k], entity.attachments(), event, actor, target),
    )
}

/// The votes of the entity's own plugins, in the order of its registry.
pub open spec fn own_votes(
    entity: EntityView,
    event: Event,
    actor: Pubkey,
    target: Option<Plugin>,
) -> Seq<ValidationResult> {
    Seq::new(
        entity.attachments().len(),
        |k: int| plugin_vote(entity.attachments()[k], event, actor, target),
    )
}

/// All votes on one event, in the order in which they are collected: the
/// core, the plugin to be attached, the plugins of the collection, then the
/// entity's own plugins.
pub open spec fn votes(
    entity: EntityView,
    parent: Option<ParentView>,
    event: Event,
    actor: Pubkey,
    target: Option<Plugin>,
) -> Seq<ValidationResult> {
    seq![core_vote(entity.core, parent, event, actor), target_vote(event, actor, target)]
        + parent_votes(entity, parent, event, actor, target) + own_votes(
        entity,
        event,
        actor,
        target,
    )
}

/// The decision on one event.
pub open spec fn decide(
    entity: EntityView,
    parent: Option<ParentView>,
    event: Event,
    actor: Pubkey,
    target: Option<Plugin>,
) -> Decision {
    arbitrate(votes(entity, parent, event, actor, target))
}

/// Whether a core entity of the kind of `core` votes on `event`.
pub fn check_core(core: &Core, event: Event) -> (r: CheckResult)
    ensures
        r == (match core@ {
            CoreView::Asset { .. } => asset_check(event),
            CoreView::Collection { .. } => collection_check(event),
        }),
{
    match core {
        Core::Asset(_) => CheckResult::CanApprove,
        Core::Collection(_) => match event {
            Event::Transfer => CheckResult::NoVote,
            Event::Burn => CheckResult::NoVote,
            Event::Compress => CheckResult::NoVote,
            Event::Decompress => CheckResult::NoVote,
            _ => CheckResult::CanApprove,
        },
    }
}

/// The vote of a core entity that votes on `event`.
pub fn validate_core(core: &Core, parent: &Option<Parent>, event: Event, actor: &Pubkey) -> (r:
    ValidationResult)
    ensures
        r == core_validate(core@, parent_view(*parent), event, *actor),
{
    let required = match event {
        Event::Update => Authority::UpdateAuthority,
        _ => Authority::Owner,
    };
    let mut list: Vec<Authority> = Vec::new();
    list.push(required);
    let granted = has_authority(core, parent, actor, &list);
    proof {
        let p = parent_view(*parent);
        assert(list@[0] == required);
        if holds(core@, p, *actor, required) {
            assert(holds(core@, p, *actor, list@[0]));
        }
    }
    if granted {
        ValidationResult::Approved
    } else {
        ValidationResult::Pass
    }
}

/// The vote of the core on `event`.
pub fn vote_of_core(core: &Core, parent: &Option<Parent>, event: Event, actor: &Pubkey) -> (r:
    ValidationResult)
    ensures
        r == core_vote(core@, parent_view(*parent), event, *actor),
{
    match check_core(core, event) {
        CheckResult::NoVote => match core {
            Core::Asset(_) => match parent {
                Some(parent) => match event {
                    Event::Transfer => ValidationResult::Pass,
                    Event::Burn => ValidationResult::Pass,
                    Event::Compress => ValidationResult::Pass,
                    Event::Decompress => ValidationResult::Pass,
                    _ => {
                        let nobody: Option<Parent> = None;
                        validate_core(&parent.entity.core, &nobody, event, actor)
                    },
                },
                None => ValidationResult::Pass,
            },
            Core::Collection(_) => ValidationResult::Pass,
        },
        _ => validate_core(core, parent, event, actor),
    }
}

/// The vote of one attached plugin on `event`.
pub fn vote_of_plugin(
    attached: &AttachedPlugin,
    event: Event,
    actor: &Pubkey,
    target: Option<Plugin>,
) -> (r: ValidationResult)
    ensures
        r == plugin_vote(attached@, event, *actor, target),
{
    match PluginType::of(&attached.plugin).check(event) {
        CheckResult::NoVote => ValidationResult::Pass,
        _ => {
            let ctx = PluginValidationContext {
                self_authorities: &attached.authorities,
                authority: *actor,
                target_plugin: target,
            };
            match attached.plugin.validate(event, &ctx) {
                Ok(vote) => vote,
                Err(_) => ValidationResult::Rejected,
            }
        },
    }
}

/// Whether `entity` holds a plugin of kind `kind`.
pub fn entity_holds_kind(entity: &Entity, kind: PluginType) -> (r: bool)
    ensures
        r == holds_kind(entity@.attachments(), kind),
{
    match &entity.plugins {
        None => false,
        Some(plugins) => {
            let mut i: usize = 0;
            while i < plugins.len()
                invariant
                    i <= plugins.len(),
                    entity@.attachments() == attachments_view(plugins@),
                    forall|j: int|
                        0 <= j < i ==> PluginType::spec_of(
                            (#[trigger] entity@.attachments()[j]).plugin,
                        ) != kind,
                decreases plugins.len() - i,
            {
                if PluginType::of(&plugins[i].plugin) == kind {
                    assert(PluginType::spec_of(entity@.attachments()[i as int].plugin) == kind);
                    return true;
                }
                i += 1;
            }
            false
        },
    }
}

/// The vote of the plugin that is about to be attached.
pub fn vote_of_target(event: Event, actor: &Pubkey, target: Option<Plugin>) -> (r: ValidationResult)
    ensures
        r == target_vote(event, *actor, target),
{
    match target {
        Some(plugin) => match event {
            Event::AddPlugin => {
                let attached = AttachedPlugin { plugin, authorities: Vec::new() };
                assert(attached@.authorities =~= Seq::<Authority>::empty());
                vote_of_plugin(&attached, event, actor, target)
            },
            _ => ValidationResult::Pass,
        },
        None => ValidationResult::Pass,
    }
}

/// The attached plugins of an optional parent.
fn plugins_of_parent<'a>(parent: &'a Option<Parent>) -> (r: Option<&'a Vec<AttachedPlugin>>)
    ensures
        match r {
            Some(list) => attachments_view(list@) == parent_attachments(parent_view(*parent)),
            None => parent_attachments(parent_view(*parent)).len() == 0,
        },
{
    match parent {
        Some(parent) => match &parent.entity.plugins {
            Some(list) => Some(list),
            None => None,
        },
        None => None,
    }
}

/// Runs the validation of one event: collects the vote of the core, of the
/// plugin to be attached, of the plugins of the collection and of the
/// entity's own plugins, and stops at the first rejection.
pub fn validate(
    event: Event,
    entity: &Entity,
    parent: &Option<Parent>,
    actor: &Pubkey,
    target: Option<Plugin>,
) -> (decision: Decision)
    ensures
        decision == decide(entity@, parent_view(*parent), event, *actor, target),
{
    let ghost p = parent_view(*parent);
    let ghost all = votes(entity@, p, event, *actor, target);
    let ghost upper = parent_votes(entity@, p, event, *actor, target);
    let ghost lower = own_votes(entity@, event, *actor, target);
    let ghost np = upper.len() as int;
    proof {
        assert(all.len() == 2 + np + lower.len());
        assert(forall|k: int| 0 <= k < np ==> all[2 + k] == upper[k]);
        assert(forall|k: int| 0 <= k < lower.len() ==> all[2 + np + k] == lower[k]);
    }
    let first = vote_of_core(&entity.core, parent, event, actor);
    let second = vote_of_target(event, actor, target);
    assert(all[0] == first && all[1] == second);
    if first == ValidationResult::Rejected || second == ValidationResult::Rejected {
        return Decision::Rejected;
    }
    let mut approved = first == ValidationResult::Approved || second
        == ValidationResult::Approved;
    match plugins_of_parent(parent) {
        Some(list) => {
            let mut k: usize = 0;
            while k < list.len()
                invariant
                    k <= list.len(),
                    list@.len() == np,
                    all.len() >= 2 + np,
                    p == parent_view(*parent),
                    all == votes(entity@, p, event, *actor, target),
                    attachments_view(list@) == parent_attachments(p),
                    upper == parent_votes(entity@, p, event, *actor, target),
                    forall|j: int| 0 <= j < np ==> all[2 + j] == upper[j],
                    forall|j: int| 0 <= j < 2 + k ==> all[j] != ValidationResult::Rejected,
                    approved == (exists|j: int|
                        0 <= j < 2 + k && all[j] == ValidationResult::Approved),
                decreases list.len() - k,
            {
                let attached = &list[k];
                assert(attached@ == parent_attachments(p)[k as int]);
                let vote = if entity_holds_kind(entity, PluginType::of(&attached.plugin)) {
                    ValidationResult::Pass
                } else {
                    vote_of_plugin(attached, event, actor, target)
                };
                assert(vote == upper[k as int]);
                assert(all[2 + k] == vote);
                match vote {
                    ValidationResult::Rejected => {
                        return Decision::Rejected;
                    },
                    ValidationResult::Approved => {
                        approved = true;
                    },
                    ValidationResult::Pass => {},
                }
                k += 1;
            }
        },
        None => {},
    }
    match &entity.plugins {
        Some(list) => {
            let mut k: usize = 0;
            while k < list.len()
                invariant
                    k <= list.len(),
                    list@.len() == lower.len(),
                    np >= 0,
                    p == parent_view(*parent),
                    all == votes(entity@, p, event, *actor, target),
                    all.len() == 2 + np + lower.len(),
                    attachments_view(list@) == entity@.attachments(),
                    lower == own_votes(entity@, event, *actor, target),
                    forall|j: int| 0 <= j < lower.len() ==> all[2 + np + j] == lower[j],
                    forall|j: int| 0 <= j < 2 + np + k ==> all[j] != ValidationResult::Rejected,
                    approved == (exists|j: int|
                        0 <= j < 2 + np + k && all[j] == ValidationResult::Approved),
                decreases list.len() - k,
            {
                let attached = &list[k];
                assert(attached@ == entity@.attachments()[k as int]);
                let vote = vote_of_plugin(attached, event, actor, target);
                assert(vote == lower[k as int]);
                assert(all[2 + np + k] == vote);
                match vote {
                    ValidationResult::Rejected => {
                        return Decision::Rejected;
                    },
                    ValidationResult::Approved => {
                        approved = true;
                    },
                    ValidationResult::Pass => {},
                }
                k += 1;
            }
        },
        None => {},
    }
    if approved {
        Decision::Approved
    } else {
        Decision::Denied
    }
}

/// Law of arbitration, on the pipeline: when one of the entity's own
/// plugins rejects, the operation is rejected, whoever else approves.
pub proof fn lemma_plugin_rejection_is_final(
    entity: EntityView,
    parent: Option<ParentView>,
    event: Event,
    actor: Pubkey,
    target: Option<Plugin>,
    k: int,
)
    requires
        0 <= k < entity.attachments().len(),
        plugin_vote(entity.attachments()[k], event, actor, target) == ValidationResult::Rejected,
    ensures
        decide(entity, parent, event, actor, target) == Decision::Rejected,
{
    let all = votes(entity, parent, event, actor, target);
    let upper = parent_votes(entity, parent, event, actor, target);
    let lower = own_votes(entity, event, actor, target);
    assert(lower[k] == ValidationResult::Rejected);
    assert(all[2 + upper.len() + k] == lower[k]);
}

/// Law of arbitration, on the pipeline: when a plugin of the collection
/// that is asked rejects, the operation is rejected.
pub proof fn lemma_parent_rejection_is_final(
    entity: EntityView,
    parent: ParentView,
    event: Event,
    actor: Pubkey,
    target: Option<Plugin>,
    k: int,
)
    requires
        0 <= k < parent.entity.attachments().len(),
        parent_vote(parent.entity.attachments()[k], entity.attachments(), event, actor, target)
            == ValidationResult::Rejected,
    ensures
        decide(entity, Some(parent), event, actor, target) == Decision::Rejected,
{
    let all = votes(entity, Some(parent), event, actor, target);
    let upper = parent_votes(entity, Some(parent), event, actor, target);
    assert(upper[k] == ValidationResult::Rejected);
    assert(all[2 + k] == upper[k]);
}

/// Law of arbitration, on the pipeline: when the core has no say and no
/// plugin votes, the operation is denied.
pub proof fn lemma_silence_denies(
    entity: EntityView,
    parent: Option<ParentView>,
    event: Event,
    actor: Pubkey,
    target: Option<Plugin>,
)
    requires
        core_vote(entity.core, parent, event, actor) == ValidationResult::Pass,
        target_vote(event, actor, target) == ValidationResult::Pass,
        forall|k: int|
            0 <= k < entity.attachments().len() ==> PluginType::spec_of(
                (#[trigger] entity.attachments()[k]).plugin,
            ).spec_check(event) == CheckResult::NoVote,
        forall|k: int|
            0 <= k < parent_attachments(parent).len() ==> PluginType::spec_of(
                (#[trigger] parent_attachments(parent)[k]).plugin,
            ).spec_check(event) == CheckResult::NoVote,
    ensures
        decide(entity, parent, event, actor, target) == Decision::Denied,
{
    let all = votes(entity, parent, event, actor, target);
    let upper = parent_votes(entity, parent, event, actor, target);
    let lower = own_votes(entity, event, actor, target);
    assert forall|j: int| 0 <= j < all.len() implies all[j] == ValidationResult::Pass by {
        if j >= 2 + upper.len() {
            let k = j - 2 - upper.len();
            assert(all[j] == lower[k]);
            assert(PluginType::spec_of(entity.attachments()[k].plugin).spec_check(event)
                == CheckResult::NoVote);
        } else if j >= 2 {
            let k = j - 2;
            assert(all[j] == upper[k]);
            assert(PluginType::spec_of(parent_attachments(parent)[k].plugin).spec_check(event)
                == CheckResult::NoVote);
        }
    }
    lemma_default_deny(all);
}

/// Law of the bare asset: the update of an asset without plugins and
/// without a collection is approved for its update authority and denied to
/// everybody else.
pub proof fn lemma_update_of_bare_asset(entity: EntityView, actor: Pubkey)
    requires
        entity.core is Asset,
        entity.attachments().len() == 0,
    ensures
        decide(entity, None, Event::Update, actor, None) == (if crate::authority::update_authority_of(
            entity.core,
            None,
        ) == Some(actor) {
            Decision::Approved
        } else {
            Decision::Denied
        }),
{
    let all = votes(entity, None, Event::Update, actor, None);
    assert(all.len() == 2);
    assert(all[0] == core_vote(entity.core, None, Event::Update, actor));
    assert(all[1] == ValidationResult::Pass);
    if all[0] == ValidationResult::Approved {
        lemma_approval_suffices(all, 0);
    } else {
        lemma_default_deny(all);
    }
}

/// Law of precedence: a plugin of the collection is not asked when the
/// entity itself holds a plugin of the same kind, so the entity's plugin
/// decides in its place.
pub proof fn lemma_own_plugin_overrides(
    entity: EntityView,
    parent: ParentView,
    event: Event,
    actor: Pubkey,
    target: Option<Plugin>,
    k: int,
)
    requires
        0 <= k < parent.entity.attachments().len(),
        holds_kind(entity.attachments(), PluginType::spec_of(parent.entity.attachments()[k].plugin)),
    ensures
        parent_votes(entity, Some(parent), event, actor, target)[k] == ValidationResult::Pass,
{
}

/// Law of precedence, on the decision: two collections that differ only in
/// the state and authorities of plugins whose kinds the entity holds itself
/// lead to the same decision.
pub proof fn lemma_overridden_plugins_do_not_matter(
    entity: EntityView,
    a: ParentView,
    b: ParentView,
    event: Event,
    actor: Pubkey,
    target: Option<Plugin>,
)
    requires
        a.key == b.key,
        a.entity.core == b.entity.core,
        a.entity.attachments().len() == b.entity.attachments().len(),
        forall|k: int|
            0 <= k < a.entity.attachments().len() ==> {
                ||| a.entity.attachments()[k] == b.entity.attachments()[k]
                ||| {
                    &&& PluginType::spec_of(#[trigger] a.entity.attachments()[k].plugin)
                        == PluginType::spec_of(b.entity.attachments()[k].plugin)
                    &&& holds_kind(
                        entity.attachments(),
                        PluginType::spec_of(a.entity.attachments()[k].plugin),
                    )
                }
            },
    ensures
        decide(entity, Some(a), event, actor, target) == decide(
            entity,
            Some(b),
            event,
            actor,
            target,
        ),
{
    let va = parent_votes(entity, Some(a), event, actor, target);
    let vb = parent_votes(entity, Some(b), event, actor, target);
    assert forall|k: int| 0 <= k < va.len() implies va[k] == vb[k] by {
        let x = a.entity.attachments()[k];
        let y = b.entity.attachments()[k];
        assert(PluginType::spec_of(x.plugin) == PluginType::spec_of(y.plugin));
    }
    assert(va =~= vb);
    assert(core_vote(entity.core, Some(a), event, actor) == core_vote(
        entity.core,
        Some(b),
        event,
        actor,
    ));
}

} // verus!
