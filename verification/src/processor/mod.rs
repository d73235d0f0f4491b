//! The handlers of the instructions: each checks who asks, runs the
//! validation pipeline, and then changes the buffer of the entity.
//!
//! A handler is given the accounts of its instruction as plain values: the
//! address of each account, whether it signed, and its bytes. It changes
//! nothing but the bytes of the entity, and those only when it succeeds.

pub mod plugin;
pub mod thaw;
pub mod transfer;
pub mod update;

use crate::authority::Parent;
use crate::authority::ParentView;
use crate::entity::Entity;
use crate::error::CoreError;
use crate::model::parse_entity;
use crate::model::EntityView;
use crate::plugins::Event;
use crate::plugins::Plugin;
use crate::state::Core;
use crate::state::Pubkey;
use crate::validation::decide;
use crate::validation::validate;
use crate::validation::Decision;
use vstd::prelude::*;

verus! {

/// An account as a handler sees it.
#[derive(Clone, Debug, PartialEq, Eq)]
pub struct Account {
    /// The address of the account.
    pub key: Pubkey,
    /// Whether the account signed the transaction.
    pub is_signer: bool,
    /// The bytes the account holds.
    pub data: Vec<u8>,
}

/// The accounts of an instruction that changes an asset or its plugins.
#[derive(Clone, Debug, PartialEq, Eq)]
pub struct AssetAccounts {
    /// The asset.
    pub asset: Account,
    /// The collection to which the asset belongs.
    pub collection: Option<Account>,
    /// The actor that asks for the change.
    pub authority: Account,
    /// The account paying for the storage fees.
    pub payer: Option<Account>,
}

/// Fails with `Authority` unless the account signed.
pub fn assert_signer(account: &Account) -> (r: Result<(), CoreError>)
    ensures
        r == (if account.is_signer {
            Ok::<(), CoreError>(())
        } else {
            Err::<(), CoreError>(CoreError::Authority)
        }),
{
    if account.is_signer {
        Ok(())
    } else {
        Err(CoreError::Authority)
    }
}

/// Whether the actor signed and, when there is a payer, the payer signed.
pub open spec fn signed(authority: Account, payer: Option<Account>) -> bool {
    authority.is_signer && (payer matches Some(payer) ==> payer.is_signer)
}

/// Fails with `Authority` unless the actor signed and, when there is a
/// payer, the payer signed.
pub fn assert_signers(authority: &Account, payer: &Option<Account>) -> (r: Result<(), CoreError>)
    ensures
        r == (if signed(*authority, *payer) {
            Ok::<(), CoreError>(())
        } else {
            Err::<(), CoreError>(CoreError::Authority)
        }),
{
    match assert_signer(authority) {
        Ok(_) => {},
        Err(error) => { return Err(error); },
    }
    match payer {
        Some(payer) => assert_signer(payer),
        None => Ok(()),
    }
}

/// The asset that an account holds: the account must hold an entity, and
/// the entity must be an asset.
pub open spec fn asset_of(data: Seq<u8>) -> Result<EntityView, CoreError> {
    match parse_entity(data) {
        None => Err(CoreError::Layout),
        Some(entity) => if entity.core is Asset {
            Ok(entity)
        } else {
            Err(CoreError::InvalidState)
        },
    }
}

/// The collection that an account holds: the account must hold an entity,
/// and the entity must be a collection.
pub open spec fn collection_of(data: Seq<u8>) -> Result<EntityView, CoreError> {
    match parse_entity(data) {
        None => Err(CoreError::Layout),
        Some(entity) => if entity.core is Collection {
            Ok(entity)
        } else {
            Err(CoreError::InvalidState)
        },
    }
}

/// The parent that the optional collection account stands for.
pub open spec fn parent_of(collection: Option<Account>) -> Result<Option<ParentView>, CoreError> {
    match collection {
        None => Ok(None),
        Some(account) => match collection_of(account.data@) {
            Ok(entity) => Ok(Some(ParentView { key: account.key, entity })),
            Err(error) => Err(error),
        },
    }
}

/// Reads the asset in `data`.
pub fn load_asset(data: &Vec<u8>) -> (r: Result<Entity, CoreError>)
    ensures
        match asset_of(data@) {
            Ok(entity) => r is Ok && r.unwrap()@ == entity && entity.wf() && entity.bytes()
                == data@,
            Err(error) => r is Err && r.unwrap_err() == error,
        },
{
    let entity = match Entity::deserialize(data) {
        Ok(entity) => entity,
        Err(error) => { return Err(error); },
    };
    match &entity.core {
        Core::Asset(_) => Ok(entity),
        Core::Collection(_) => Err(CoreError::InvalidState),
    }
}

/// Reads the collection in `data`.
pub fn load_collection(data: &Vec<u8>) -> (r: Result<Entity, CoreError>)
    ensures
        match collection_of(data@) {
            Ok(entity) => r is Ok && r.unwrap()@ == entity && entity.wf() && entity.bytes()
                == data@,
            Err(error) => r is Err && r.unwrap_err() == error,
        },
{
    let entity = match Entity::deserialize(data) {
        Ok(entity) => entity,
        Err(error) => { return Err(error); },
    };
    match &entity.core {
        Core::Collection(_) => Ok(entity),
        Core::Asset(_) => Err(CoreError::InvalidState),
    }
}

/// Reads the parent that the optional collection account stands for.
pub fn load_parent(collection: &Option<Account>) -> (r: Result<Option<Parent>, CoreError>)
    ensures
        match parent_of(*collection) {
            Ok(parent) => r is Ok && crate::authority::parent_view(r.unwrap()) == parent,
            Err(error) => r is Err && r.unwrap_err() == error,
        },
{
    match collection {
        None => Ok(None),
        Some(account) => match load_collection(&account.data) {
            Ok(entity) => Ok(Some(Parent { key: account.key, entity })),
            Err(error) => Err(error),
        },
    }
}

/// What the pipeline's decision means for a handler: go on, or stop with
/// `Authority`.
pub open spec fn permitted(
    entity: EntityView,
    parent: Option<ParentView>,
    event: Event,
    actor: Pubkey,
    target: Option<Plugin>,
) -> bool {
    decide(entity, parent, event, actor, target) == Decision::Approved
}

/// Runs the validation pipeline and fails with `Authority` unless the
/// operation is approved: a rejection and a denial both stop the handler.
pub fn authorize(
    event: Event,
    entity: &Entity,
    parent: &Option<Parent>,
    actor: &Pubkey,
    target: Option<Plugin>,
) -> (r: Result<(), CoreError>)
    ensures
        r == (if permitted(
            entity@,
            crate::authority::parent_view(*parent),
            event,
            *actor,
            target,
        ) {
            Ok::<(), CoreError>(())
        } else {
            Err::<(), CoreError>(CoreError::Authority)
        }),
{
    match validate(event, entity, parent, actor, target) {
        Decision::Approved => Ok(()),
        Decision::Rejected => Err(CoreError::Authority),
        Decision::Denied => Err(CoreError::Authority),
    }
}

/// What a handler for assets starts from: the asset and its parent, once
/// the signatures are checked and both accounts are read.
pub open spec fn opening(accounts: AssetAccounts) -> Result<
    (EntityView, Option<ParentView>),
    CoreError,
> {
    if !signed(accounts.authority, accounts.payer) {
        Err(CoreError::Authority)
    } else {
        match asset_of(accounts.asset.data@) {
            Err(error) => Err(error),
            Ok(entity) => match parent_of(accounts.collection) {
                Err(error) => Err(error),
                Ok(parent) => Ok((entity, parent)),
            },
        }
    }
}

/// Checks the signatures and reads the asset and its parent.
pub fn open(accounts: &AssetAccounts) -> (r: Result<(Entity, Option<Parent>), CoreError>)
    ensures
        match opening(*accounts) {
            Ok((entity, parent)) => {
                &&& r is Ok
                &&& r.unwrap().0@ == entity
                &&& crate::authority::parent_view(r.unwrap().1) == parent
                &&& entity.wf()
                &&& entity.bytes() == accounts.asset.data@
                &&& parse_entity(accounts.asset.data@) == Some(entity)
            },
            Err(error) => r is Err && r.unwrap_err() == error,
        },
{
    match assert_signers(&accounts.authority, &accounts.payer) {
        Ok(_) => {},
        Err(error) => { return Err(error); },
    }
    let entity = match load_asset(&accounts.asset.data) {
        Ok(entity) => entity,
        Err(error) => { return Err(error); },
    };
    let parent = match load_parent(&accounts.collection) {
        Ok(parent) => parent,
        Err(error) => { return Err(error); },
    };
    proof {
        crate::model::lemma_parse_entity_bytes(entity@);
    }
    Ok((entity, parent))
}

/// Whether a handler left everything but the bytes of the asset as it was.
pub open spec fn only_asset_data_changed(before: AssetAccounts, after: AssetAccounts) -> bool {
    &&& after.collection == before.collection
    &&& after.authority == before.authority
    &&& after.payer == before.payer
    &&& after.asset.key == before.asset.key
    &&& after.asset.is_signer == before.asset.is_signer
}

} // verus!
