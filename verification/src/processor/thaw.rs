//! The two actions of a delegate: freezing an asset and thawing it.

use crate::authority::assert_authority;
use crate::authority::spec_has_authority;
use crate::authority::Parent;
use crate::error::CoreError;
use crate::layout::committed;
use crate::layout::fetch_core_data;
use crate::layout::fetch_plugin;
use crate::layout::write_plugin;
use crate::model::parse_entity;
use crate::model::EntityView;
use crate::plugins::delegate::Delegate;
use crate::plugins::Plugin;
use crate::plugins::PluginType;
use crate::processor::assert_signer;
use crate::processor::Account;
use crate::registry::lemma_position_of;
use vstd::prelude::*;

verus! {

/// The arguments of the thaw instruction: there are none.
#[derive(Clone, Debug, PartialEq, Eq)]
pub struct ThawArgs {}

/// The arguments of the freeze instruction: there are none.
#[derive(Clone, Debug, PartialEq, Eq)]
pub struct FreezeArgs {}

/// The accounts of the thaw instruction.
#[derive(Clone, Debug, PartialEq, Eq)]
pub struct ThawAccounts {
    /// The address of the asset.
    pub asset_address: Account,
    /// The delegate that thaws the asset.
    pub delegate: Account,
}

/// The accounts of the freeze instruction.
#[derive(Clone, Debug, PartialEq, Eq)]
pub struct FreezeAccounts {
    /// The address of the asset.
    pub asset_address: Account,
    /// The delegate that freezes the asset.
    pub delegate: Account,
}

/// What setting the frozen state gives. The delegate must have signed, the
/// asset must hold a delegate plugin, and the delegate must hold one of the
/// authorities of that plugin; then the state of the plugin is rewritten in
/// place.
pub open spec fn set_frozen_outcome(asset: Account, delegate: Account, frozen: bool) -> Result<
    EntityView,
    CoreError,
> {
    if !delegate.is_signer {
        Err(CoreError::Authority)
    } else {
        match parse_entity(asset.data@) {
            None => Err(CoreError::Layout),
            Some(entity) => match entity.position(PluginType::Delegate) {
                None => Err(CoreError::NotFound),
                Some(i) => if !spec_has_authority(
                    entity.core,
                    None,
                    delegate.key,
                    entity.attachments()[i].authorities,
                ) {
                    Err(CoreError::Authority)
                } else {
                    Ok(entity.with_state(i, Plugin::Delegate(Delegate { frozen })))
                },
            },
        }
    }
}

/// Sets the frozen state of the delegate plugin of the asset.
fn set_frozen(asset: &mut Account, delegate: &Account, frozen: bool) -> (r: Result<(), CoreError>)
    ensures
        final(asset).key == old(asset).key,
        final(asset).is_signer == old(asset).is_signer,
        committed(
            old(asset).data@,
            final(asset).data@,
            set_frozen_outcome(*old(asset), *delegate, frozen),
            r,
        ),
{
    match assert_signer(delegate) {
        Ok(_) => {},
        Err(error) => { return Err(error); },
    }
    let (authorities, plugin, _offset) = match fetch_plugin(&asset.data, PluginType::Delegate) {
        Ok(found) => found,
        Err(error) => { return Err(error); },
    };
    let (core, _, _) = match fetch_core_data(&asset.data) {
        Ok(found) => found,
        Err(error) => { return Err(error); },
    };
    let nobody: Option<Parent> = None;
    match assert_authority(&core, &nobody, &delegate.key, &authorities) {
        Ok(_) => {},
        Err(error) => { return Err(error); },
    }
    proof {
        let entity = parse_entity(asset.data@).unwrap();
        lemma_position_of(entity.records(), PluginType::Delegate);
    }
    let state = match plugin {
        Plugin::Delegate(mut state) => {
            state.frozen = frozen;
            state
        },
        _ => { return Err(CoreError::InvalidState); },
    };
    write_plugin(&mut asset.data, Plugin::Delegate(state))
}

/// Thaws the asset: the delegate plugin is marked as not frozen.
pub fn thaw(accounts: &mut ThawAccounts, _args: ThawArgs) -> (r: Result<(), CoreError>)
    ensures
        final(accounts).delegate == old(accounts).delegate,
        final(accounts).asset_address.key == old(accounts).asset_address.key,
        final(accounts).asset_address.is_signer == old(accounts).asset_address.is_signer,
        committed(
            old(accounts).asset_address.data@,
            final(accounts).asset_address.data@,
            set_frozen_outcome(old(accounts).asset_address, old(accounts).delegate, false),
            r,
        ),
{
    set_frozen(&mut accounts.asset_address, &accounts.delegate, false)
}

/// Freezes the asset: the delegate plugin is marked as frozen, and from
/// then on it rejects every transfer and every burn.
pub fn freeze(accounts: &mut FreezeAccounts, _args: FreezeArgs) -> (r: Result<(), CoreError>)
    ensures
        final(accounts).delegate == old(accounts).delegate,
        final(accounts).asset_address.key == old(accounts).asset_address.key,
        final(accounts).asset_address.is_signer == old(accounts).asset_address.is_signer,
        committed(
            old(accounts).asset_address.data@,
            final(accounts).asset_address.data@,
            set_frozen_outcome(old(accounts).asset_address, old(accounts).delegate, true),
            r,
        ),
{
    set_frozen(&mut accounts.asset_address, &accounts.delegate, true)
}

} // verus!
