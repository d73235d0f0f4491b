//! The handlers that give an asset to a new holder and that destroy it.

use crate::entity::Entity;
use crate::error::CoreError;
use crate::layout::committed;
use crate::layout::resize;
use crate::layout::update_core;
use crate::layout::update_core_outcome;
use crate::model::EntityView;
use crate::plugins::Event;
use crate::processor::authorize;
use crate::processor::only_asset_data_changed;
use crate::processor::open;
use crate::processor::opening;
use crate::processor::permitted;
use crate::processor::AssetAccounts;
use crate::state::Asset;
use crate::state::Core;
use crate::state::CoreView;
use crate::state::Pubkey;
use vstd::prelude::*;

verus! {

/// The arguments of the transfer instruction.
#[derive(Clone, Debug, PartialEq, Eq)]
pub struct TransferArgs {
    /// The address of the new holder.
    pub new_owner: Pubkey,
}

/// The arguments of the burn instruction: there are none.
#[derive(Clone, Debug, PartialEq, Eq)]
pub struct BurnArgs {}

/// The core header of an asset in the hands of `new_owner`.
pub open spec fn with_owner(core: CoreView, new_owner: Pubkey) -> CoreView {
    match core {
        CoreView::Asset { update_authority, name, uri, .. } => CoreView::Asset {
            owner: new_owner,
            update_authority,
            name,
            uri,
        },
        CoreView::Collection { .. } => core,
    }
}

/// What the transfer instruction gives.
pub open spec fn transfer_outcome(accounts: AssetAccounts, args: TransferArgs) -> Result<
    EntityView,
    CoreError,
> {
    match opening(accounts) {
        Err(error) => Err(error),
        Ok((entity, parent)) => if !permitted(
            entity,
            parent,
            Event::Transfer,
            accounts.authority.key,
            None,
        ) {
            Err(CoreError::Authority)
        } else {
            update_core_outcome(Some(entity), with_owner(entity.core, args.new_owner))
        },
    }
}

/// Gives the asset to a new holder.
pub fn transfer(accounts: &mut AssetAccounts, args: TransferArgs) -> (r: Result<(), CoreError>)
    ensures
        only_asset_data_changed(*old(accounts), *final(accounts)),
        committed(
            old(accounts).asset.data@,
            final(accounts).asset.data@,
            transfer_outcome(*old(accounts), args),
            r,
        ),
{
    let (entity, parent) = match open(accounts) {
        Ok(pair) => pair,
        Err(error) => { return Err(error); },
    };
    match authorize(Event::Transfer, &entity, &parent, &accounts.authority.key, None) {
        Ok(_) => {},
        Err(error) => { return Err(error); },
    }
    let Entity { core, plugins: _ } = entity;
    let core = match core {
        Core::Asset(asset) => {
            let Asset { owner: _, update_authority, name, uri } = asset;
            Core::Asset(Asset { owner: args.new_owner, update_authority, name, uri })
        },
        Core::Collection(collection) => Core::Collection(collection),
    };
    update_core(&mut accounts.asset.data, core)
}

/// What the burn instruction gives: nothing is left of the asset.
pub open spec fn burn_outcome(accounts: AssetAccounts) -> Result<(), CoreError> {
    match opening(accounts) {
        Err(error) => Err(error),
        Ok((entity, parent)) => if !permitted(
            entity,
            parent,
            Event::Burn,
            accounts.authority.key,
            None,
        ) {
            Err(CoreError::Authority)
        } else {
            Ok(())
        },
    }
}

/// Destroys the asset: its buffer is emptied.
pub fn burn(accounts: &mut AssetAccounts, _args: BurnArgs) -> (r: Result<(), CoreError>)
    ensures
        only_asset_data_changed(*old(accounts), *final(accounts)),
        r == burn_outcome(*old(accounts)),
        r is Ok ==> final(accounts).asset.data@.len() == 0,
        r is Err ==> final(accounts).asset.data@ == old(accounts).asset.data@,
{
    let (entity, parent) = match open(accounts) {
        Ok(pair) => pair,
        Err(error) => { return Err(error); },
    };
    match authorize(Event::Burn, &entity, &parent, &accounts.authority.key, None) {
        Ok(_) => {},
        Err(error) => { return Err(error); },
    }
    resize(&mut accounts.asset.data, 0);
    Ok(())
}

} // verus!
