//! The handlers that change the metadata of an asset or of a collection.

use crate::error::CoreError;
use crate::layout::committed;
use crate::layout::update_core;
use crate::layout::update_core_outcome;
use crate::model::EntityView;
use crate::plugins::Event;
use crate::processor::asset_of;
use crate::processor::assert_signers;
use crate::processor::authorize;
use crate::processor::collection_of;
use crate::processor::load_asset;
use crate::processor::load_collection;
use crate::processor::load_parent;
use crate::processor::parent_of;
use crate::processor::permitted;
use crate::processor::signed;
use crate::processor::Account;
use crate::authority::Parent;
use crate::entity::Entity;
use crate::state::Asset;
use crate::state::Collection;
use crate::state::Core;
use crate::state::CoreView;
use crate::state::Pubkey;
use crate::state::UpdateAuthority;
use vstd::prelude::*;

verus! {

/// The arguments of the update instruction: the name and the URI to set.
#[derive(Clone, Debug, PartialEq, Eq)]
pub struct UpdateArgs {
    pub new_name: Option<String>,
    pub new_uri: Option<String>,
}

/// The arguments of the update instruction for collections.
#[derive(Clone, Debug, PartialEq, Eq)]
pub struct UpdateCollectionArgs {
    pub new_name: Option<String>,
    pub new_uri: Option<String>,
}

/// The accounts of the update instruction.
#[derive(Clone, Debug, PartialEq, Eq)]
pub struct UpdateAccounts {
    /// The asset.
    pub asset: Account,
    /// The collection to which the asset belongs.
    pub collection: Option<Account>,
    /// The update authority or update authority delegate of the asset.
    pub authority: Account,
    /// The account paying for the storage fees.
    pub payer: Option<Account>,
    /// The new update authority of the asset.
    pub new_update_authority: Option<Account>,
}

/// The accounts of the update instruction for collections.
#[derive(Clone, Debug, PartialEq, Eq)]
pub struct UpdateCollectionAccounts {
    /// The collection.
    pub collection: Account,
    /// The update authority or update authority delegate of the collection.
    pub authority: Account,
    /// The account paying for the storage fees.
    pub payer: Option<Account>,
    /// The new update authority of the collection.
    pub new_update_authority: Option<Account>,
}

/// The characters of an optional string.
pub open spec fn chars_of(text: Option<String>) -> Option<Seq<char>> {
    match text {
        Some(text) => Some(text@),
        None => None,
    }
}

/// The address of an optional account.
pub open spec fn key_of(account: Option<Account>) -> Option<Pubkey> {
    match account {
        Some(account) => Some(account.key),
        None => None,
    }
}

/// Whether the instruction asks for any change.
pub open spec fn is_dirty(
    new_update_authority: Option<Pubkey>,
    new_name: Option<Seq<char>>,
    new_uri: Option<Seq<char>>,
) -> bool {
    new_update_authority is Some || new_name is Some || new_uri is Some
}

/// The core header after the instruction: each value that is given
/// replaces the one that is there.
pub open spec fn updated_core(
    core: CoreView,
    new_update_authority: Option<Pubkey>,
    new_name: Option<Seq<char>>,
    new_uri: Option<Seq<char>>,
) -> CoreView {
    let name = match new_name {
        Some(name) => name,
        None => core.name(),
    };
    let uri = match new_uri {
        Some(uri) => uri,
        None => core.uri(),
    };
    match core {
        CoreView::Asset { owner, update_authority, .. } => CoreView::Asset {
            owner,
            update_authority: match new_update_authority {
                Some(key) => UpdateAuthority::Address(key),
                None => update_authority,
            },
            name,
            uri,
        },
        CoreView::Collection { authority, .. } => CoreView::Collection {
            authority: match new_update_authority {
                Some(key) => key,
                None => authority,
            },
            name,
            uri,
        },
    }
}

/// What the update of an approved actor gives: nothing changes when
/// nothing is asked for; otherwise the core header is replaced.
pub open spec fn rewrite_outcome(
    entity: EntityView,
    new_update_authority: Option<Pubkey>,
    new_name: Option<Seq<char>>,
    new_uri: Option<Seq<char>>,
) -> Result<EntityView, CoreError> {
    if is_dirty(new_update_authority, new_name, new_uri) {
        update_core_outcome(
            Some(entity),
            updated_core(entity.core, new_update_authority, new_name, new_uri),
        )
    } else {
        Ok(entity)
    }
}

/// What the update instruction gives. The actor and the payer must have
/// signed; the asset account must hold an asset and the collection
/// account, when given, a collection; the pipeline must approve the update.
pub open spec fn update_outcome(accounts: UpdateAccounts, args: UpdateArgs) -> Result<
    EntityView,
    CoreError,
> {
    if !signed(accounts.authority, accounts.payer) {
        Err(CoreError::Authority)
    } else {
        match asset_of(accounts.asset.data@) {
            Err(error) => Err(error),
            Ok(entity) => match parent_of(accounts.collection) {
                Err(error) => Err(error),
                Ok(parent) => if !permitted(
                    entity,
                    parent,
                    Event::Update,
                    accounts.authority.key,
                    None,
                ) {
                    Err(CoreError::Authority)
                } else {
                    rewrite_outcome(
                        entity,
                        key_of(accounts.new_update_authority),
                        chars_of(args.new_name),
                        chars_of(args.new_uri),
                    )
                },
            },
        }
    }
}

/// What the update instruction for collections gives.
pub open spec fn update_collection_outcome(
    accounts: UpdateCollectionAccounts,
    args: UpdateCollectionArgs,
) -> Result<EntityView, CoreError> {
    if !signed(accounts.authority, accounts.payer) {
        Err(CoreError::Authority)
    } else {
        match collection_of(accounts.collection.data@) {
            Err(error) => Err(error),
            Ok(entity) => if !permitted(
                entity,
                None,
                Event::Update,
                accounts.authority.key,
                None,
            ) {
                Err(CoreError::Authority)
            } else {
                rewrite_outcome(
                    entity,
                    key_of(accounts.new_update_authority),
                    chars_of(args.new_name),
                    chars_of(args.new_uri),
                )
            },
        }
    }
}

/// The core header with the given values in place of its own.
fn rewrite(
    core: Core,
    new_update_authority: Option<Pubkey>,
    new_name: Option<String>,
    new_uri: Option<String>,
) -> (r: Core)
    ensures
        r@ == updated_core(core@, new_update_authority, chars_of(new_name), chars_of(new_uri)),
{
    match core {
        Core::Asset(asset) => {
            let Asset { owner, update_authority, name, uri } = asset;
            Core::Asset(
                Asset {
                    owner,
                    update_authority: match new_update_authority {
                        Some(key) => UpdateAuthority::Address(key),
                        None => update_authority,
                    },
                    name: match new_name {
                        Some(name) => name,
                        None => name,
                    },
                    uri: match new_uri {
                        Some(uri) => uri,
                        None => uri,
                    },
                },
            )
        },
        Core::Collection(collection) => {
            let Collection { update_authority, name, uri } = collection;
            Core::Collection(
                Collection {
                    update_authority: match new_update_authority {
                        Some(key) => key,
                        None => update_authority,
                    },
                    name: match new_name {
                        Some(name) => name,
                        None => name,
                    },
                    uri: match new_uri {
                        Some(uri) => uri,
                        None => uri,
                    },
                },
            )
        },
    }
}

/// Applies the requested changes to the entity in `data`.
fn apply(
    data: &mut Vec<u8>,
    entity: Entity,
    new_update_authority: Option<Pubkey>,
    new_name: Option<String>,
    new_uri: Option<String>,
) -> (r: Result<(), CoreError>)
    requires
        entity@.wf(),
        entity@.bytes() == old(data)@,
        crate::model::parse_entity(old(data)@) == Some(entity@),
    ensures
        committed(
            old(data)@,
            final(data)@,
            rewrite_outcome(
                entity@,
                new_update_authority,
                chars_of(new_name),
                chars_of(new_uri),
            ),
            r,
        ),
{
    let dirty = new_update_authority.is_some() || new_name.is_some() || new_uri.is_some();
    if !dirty {
        return Ok(());
    }
    let Entity { core, plugins: _ } = entity;
    update_core(data, rewrite(core, new_update_authority, new_name, new_uri))
}

/// The address of an optional account.
fn key(account: &Option<Account>) -> (r: Option<Pubkey>)
    ensures
        r == key_of(*account),
{
    match account {
        Some(account) => Some(account.key),
        None => None,
    }
}

/// Updates the name, the URI and the update authority of an asset. When
/// the size of the core header changes, the plugin data of the asset is
/// moved and every offset in its registry is adjusted.
pub fn update(accounts: &mut UpdateAccounts, args: UpdateArgs) -> (r: Result<(), CoreError>)
    ensures
        final(accounts).collection == old(accounts).collection,
        final(accounts).authority == old(accounts).authority,
        final(accounts).payer == old(accounts).payer,
        final(accounts).new_update_authority == old(accounts).new_update_authority,
        final(accounts).asset.key == old(accounts).asset.key,
        final(accounts).asset.is_signer == old(accounts).asset.is_signer,
        committed(
            old(accounts).asset.data@,
            final(accounts).asset.data@,
            update_outcome(*old(accounts), args),
            r,
        ),
{
    // Guards.
    match assert_signers(&accounts.authority, &accounts.payer) {
        Ok(_) => {},
        Err(error) => { return Err(error); },
    }
    let entity = match load_asset(&accounts.asset.data) {
        Ok(entity) => entity,
        Err(error) => { return Err(error); },
    };
    // The plugins of the collection vote first; the plugins of the asset
    // override them kind by kind.
    let parent = match load_parent(&accounts.collection) {
        Ok(parent) => parent,
        Err(error) => { return Err(error); },
    };
    match authorize(Event::Update, &entity, &parent, &accounts.authority.key, None) {
        Ok(_) => {},
        Err(error) => { return Err(error); },
    }
    proof {
        crate::model::lemma_parse_entity_bytes(entity@);
    }
    let new_update_authority = key(&accounts.new_update_authority);
    apply(&mut accounts.asset.data, entity, new_update_authority, args.new_name, args.new_uri)
}

/// Updates the name, the URI and the update authority of a collection.
pub fn update_collection(accounts: &mut UpdateCollectionAccounts, args: UpdateCollectionArgs) -> (r:
    Result<(), CoreError>)
    ensures
        final(accounts).authority == old(accounts).authority,
        final(accounts).payer == old(accounts).payer,
        final(accounts).new_update_authority == old(accounts).new_update_authority,
        final(accounts).collection.key == old(accounts).collection.key,
        final(accounts).collection.is_signer == old(accounts).collection.is_signer,
        committed(
            old(accounts).collection.data@,
            final(accounts).collection.data@,
            update_collection_outcome(*old(accounts), args),
            r,
        ),
{
    // Guards.
    match assert_signers(&accounts.authority, &accounts.payer) {
        Ok(_) => {},
        Err(error) => { return Err(error); },
    }
    let entity = match load_collection(&accounts.collection.data) {
        Ok(entity) => entity,
        Err(error) => { return Err(error); },
    };
    let nobody: Option<Parent> = None;
    match authorize(Event::Update, &entity, &nobody, &accounts.authority.key, None) {
        Ok(_) => {},
        Err(error) => { return Err(error); },
    }
    proof {
        crate::model::lemma_parse_entity_bytes(entity@);
    }
    let new_update_authority = key(&accounts.new_update_authority);
    apply(
        &mut accounts.collection.data,
        entity,
        new_update_authority,
        args.new_name,
        args.new_uri,
    )
}

} // verus!
