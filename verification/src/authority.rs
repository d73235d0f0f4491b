//! The authority resolver: whether an actor holds one of the authorities an
//! operation asks for.

use crate::entity::Entity;
use crate::error::CoreError;
use crate::model::EntityView;
use crate::plugins::contains_authority;
use crate::state::Authority;
use crate::state::Core;
use crate::state::CoreView;
use crate::state::Pubkey;
use crate::state::UpdateAuthority;
use vstd::prelude::*;

verus! {

/// The collection an asset may belong to, named by its address.
#[derive(Clone, Debug, PartialEq, Eq)]
pub struct Parent {
    /// The address of the collection.
    pub key: Pubkey,
    /// The collection with its plugins.
    pub entity: Entity,
}

/// The mathematical value of a parent collection.
pub struct ParentView {
    pub key: Pubkey,
    pub entity: EntityView,
}

impl View for Parent {
    type V = ParentView;

    open spec fn view(&self) -> ParentView {
        ParentView { key: self.key, entity: self.entity@ }
    }
}

impl ParentView {
    /// The update authority of the collection, when the parent is one.
    pub open spec fn update_authority(self) -> Option<Pubkey> {
        match self.entity.core {
            CoreView::Collection { authority, .. } => Some(authority),
            CoreView::Asset { .. } => None,
        }
    }
}

/// The holder of an entity: the owner of an asset; for a collection, which
/// has no owner of its own, its update authority.
pub open spec fn holder_of(core: CoreView) -> Pubkey {
    match core {
        CoreView::Asset { owner, .. } => owner,
        CoreView::Collection { authority, .. } => authority,
    }
}

/// The address that is the update authority of an entity. An asset may
/// leave that role to its holder or to its collection; the collection is
/// consulted only when it is the one the asset names.
pub open spec fn update_authority_of(core: CoreView, parent: Option<ParentView>) -> Option<Pubkey> {
    match core {
        CoreView::Asset { owner, update_authority, .. } => match update_authority {
            UpdateAuthority::Owner => Some(owner),
            UpdateAuthority::Address(address) => Some(address),
            UpdateAuthority::Collection(address) => match parent {
                Some(parent) => if parent.key == address {
                    parent.update_authority()
                } else {
                    None
                },
                None => None,
            },
        },
        CoreView::Collection { authority, .. } => Some(authority),
    }
}

/// Whether `actor` holds the single authority `authority` over the entity.
pub open spec fn holds(
    core: CoreView,
    parent: Option<ParentView>,
    actor: Pubkey,
    authority: Authority,
) -> bool {
    match authority {
        Authority::Owner => actor == holder_of(core),
        Authority::UpdateAuthority => update_authority_of(core, parent) == Some(actor),
        Authority::Address { address } => actor == address,
    }
}

/// Whether `actor` holds at least one of the authorities in `required`.
pub open spec fn spec_has_authority(
    core: CoreView,
    parent: Option<ParentView>,
    actor: Pubkey,
    required: Seq<Authority>,
) -> bool {
    exists|i: int| 0 <= i < required.len() && holds(core, parent, actor, #[trigger] required[i])
}

/// The value of an optional parent.
pub open spec fn parent_view(parent: Option<Parent>) -> Option<ParentView> {
    match parent {
        Some(parent) => Some(parent@),
        None => None,
    }
}

/// The holder of `core`.
pub fn holder(core: &Core) -> (key: Pubkey)
    ensures
        key == holder_of(core@),
{
    match core {
        Core::Asset(asset) => asset.owner,
        Core::Collection(collection) => collection.update_authority,
    }
}

/// The address that is the update authority of `core`, if it can be resolved.
pub fn resolve_update_authority(core: &Core, parent: &Option<Parent>) -> (key: Option<Pubkey>)
    ensures
        key == update_authority_of(core@, parent_view(*parent)),
{
    match core {
        Core::Asset(asset) => match asset.update_authority {
            UpdateAuthority::Owner => Some(asset.owner),
            UpdateAuthority::Address(address) => Some(address),
            UpdateAuthority::Collection(address) => match parent {
                Some(parent) => {
                    if parent.key == address {
                        match &parent.entity.core {
                            Core::Collection(collection) => Some(collection.update_authority),
                            Core::Asset(_) => None,
                        }
                    } else {
                        None
                    }
                },
                None => None,
            },
        },
        Core::Collection(collection) => Some(collection.update_authority),
    }
}

/// Whether `actor` holds at least one of the authorities in `required`
/// over the entity. The owner is looked at first, then the update
/// authority, then the addresses.
pub fn has_authority(
    core: &Core,
    parent: &Option<Parent>,
    actor: &Pubkey,
    required: &Vec<Authority>,
) -> (r: bool)
    ensures
        r == spec_has_authority(core@, parent_view(*parent), *actor, required@),
{
    let ghost p = parent_view(*parent);
    if contains_authority(required, &Authority::Owner) && *actor == holder(core) {
        proof {
            let i = required@.index_of(Authority::Owner);
            assert(holds(core@, p, *actor, required@[i]));
        }
        return true;
    }
    let resolved = resolve_update_authority(core, parent);
    if contains_authority(required, &Authority::UpdateAuthority) && resolved.is_some()
        && resolved.unwrap() == *actor {
        proof {
            let i = required@.index_of(Authority::UpdateAuthority);
            assert(holds(core@, p, *actor, required@[i]));
        }
        return true;
    }
    if contains_authority(required, &Authority::Address { address: *actor }) {
        proof {
            let i = required@.index_of(Authority::Address { address: *actor });
            assert(holds(core@, p, *actor, required@[i]));
        }
        return true;
    }
    proof {
        assert forall|i: int| 0 <= i < required@.len() implies !holds(
            core@,
            p,
            *actor,
            #[trigger] required@[i],
        ) by {
            assert(required@.contains(required@[i]));
        }
    }
    false
}

/// Fails with `Authority` unless `actor` holds one of the authorities in
/// `required` over the entity.
pub fn assert_authority(
    core: &Core,
    parent: &Option<Parent>,
    actor: &Pubkey,
    required: &Vec<Authority>,
) -> (r: Result<(), CoreError>)
    ensures
        r == (if spec_has_authority(core@, parent_view(*parent), *actor, required@) {
            Ok::<(), CoreError>(())
        } else {
            Err::<(), CoreError>(CoreError::Authority)
        }),
{
    if has_authority(core, parent, actor, required) {
        Ok(())
    } else {
        Err(CoreError::Authority)
    }
}

} // verus!
