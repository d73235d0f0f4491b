//! The handlers that attach, change and detach the plugins of an asset and
//! that grant and withdraw the authorities over them.

use crate::entity::AttachedPlugin;
use crate::entity::Entity;
use crate::error::CoreError;
use crate::layout::add_plugin_outcome;
use crate::layout::committed;
use crate::layout::remove_plugin_outcome;
use crate::layout::set_authorities_outcome;
use crate::layout::write_plugin_outcome;
use crate::model::Attachment;
use crate::model::EntityView;
use crate::plugins::contains_authority;
use crate::plugins::Event;
use crate::plugins::Plugin;
use crate::plugins::PluginType;
use crate::processor::authorize;
use crate::processor::only_asset_data_changed;
use crate::processor::open;
use crate::processor::opening;
use crate::processor::permitted;
use crate::processor::AssetAccounts;
use crate::plugins::ValidationResult;
use crate::registry::copy_authorities;
use crate::registry::lemma_position_of;
use crate::state::Authority;
use vstd::prelude::*;

verus! {

/// The arguments of the instruction that attaches a plugin.
#[derive(Clone, Debug, PartialEq, Eq)]
pub struct AddPluginArgs {
    /// The plugin to attach.
    pub plugin: Plugin,
    /// The authority over the plugin; the manager of its kind when none is named.
    pub init_authority: Option<Authority>,
}

/// The arguments of the instruction that detaches a plugin.
#[derive(Clone, Debug, PartialEq, Eq)]
pub struct RemovePluginArgs {
    pub plugin_type: PluginType,
}

/// The arguments of the instruction that writes a new state for a plugin.
#[derive(Clone, Debug, PartialEq, Eq)]
pub struct UpdatePluginArgs {
    pub plugin: Plugin,
}

/// The arguments of the instruction that grants an authority over a plugin.
#[derive(Clone, Debug, PartialEq, Eq)]
pub struct ApprovePluginAuthorityArgs {
    pub plugin_type: PluginType,
    pub new_authority: Authority,
}

/// The arguments of the instruction that withdraws an authority over a plugin.
#[derive(Clone, Debug, PartialEq, Eq)]
pub struct RevokePluginAuthorityArgs {
    pub plugin_type: PluginType,
    pub authority: Authority,
}

/// The authorities a new plugin starts with.
pub open spec fn initial_authorities(plugin: Plugin, init_authority: Option<Authority>) -> Seq<
    Authority,
> {
    seq![
        match init_authority {
            Some(authority) => authority,
            None => PluginType::spec_of(plugin).spec_manager(),
        },
    ]
}

/// What the instruction that attaches a plugin gives. The plugin to attach
/// takes part in the vote, so a plugin that may only be attached at
/// creation is refused whoever asks.
pub open spec fn add_outcome(accounts: AssetAccounts, args: AddPluginArgs) -> Result<
    EntityView,
    CoreError,
> {
    match opening(accounts) {
        Err(error) => Err(error),
        Ok((entity, parent)) => if !permitted(
            entity,
            parent,
            Event::AddPlugin,
            accounts.authority.key,
            Some(args.plugin),
        ) {
            Err(CoreError::Authority)
        } else {
            add_plugin_outcome(
                Some(entity),
                args.plugin,
                initial_authorities(args.plugin, args.init_authority),
            )
        },
    }
}

/// Attaches a plugin to an asset.
pub fn add_plugin(accounts: &mut AssetAccounts, args: AddPluginArgs) -> (r: Result<(), CoreError>)
    ensures
        only_asset_data_changed(*old(accounts), *final(accounts)),
        committed(
            old(accounts).asset.data@,
            final(accounts).asset.data@,
            add_outcome(*old(accounts), args),
            r,
        ),
{
    let (entity, parent) = match open(accounts) {
        Ok(pair) => pair,
        Err(error) => { return Err(error); },
    };
    match authorize(
        Event::AddPlugin,
        &entity,
        &parent,
        &accounts.authority.key,
        Some(args.plugin),
    ) {
        Ok(_) => {},
        Err(error) => { return Err(error); },
    }
    let first = match args.init_authority {
        Some(authority) => authority,
        None => PluginType::of(&args.plugin).manager(),
    };
    let mut authorities: Vec<Authority> = Vec::new();
    authorities.push(first);
    assert(authorities@ =~= initial_authorities(args.plugin, args.init_authority));
    crate::layout::add_plugin(&mut accounts.asset.data, args.plugin, authorities)
}

/// The attachment of kind `plugin_type`, or the error that its absence is.
pub open spec fn attached(entity: EntityView, plugin_type: PluginType) -> Result<
    Attachment,
    CoreError,
> {
    match entity.position(plugin_type) {
        Some(i) => Ok(entity.attachments()[i]),
        None => Err(CoreError::NotFound),
    }
}

/// Looks for the attachment of kind `plugin_type`.
fn find_attached(entity: &Entity, plugin_type: PluginType) -> (r: Result<
    (Plugin, Vec<Authority>),
    CoreError,
>)
    ensures
        match attached(entity@, plugin_type) {
            Ok(attachment) => r is Ok && r.unwrap().0 == attachment.plugin && r.unwrap().1@
                == attachment.authorities,
            Err(error) => r is Err && r.unwrap_err() == error,
        },
{
    match entity.find(plugin_type) {
        Some(i) => match &entity.plugins {
            Some(plugins) => {
                let found: &AttachedPlugin = &plugins[i];
                assert(found@ == entity@.attachments()[i as int]);
                Ok((found.plugin, copy_authorities(&found.authorities)))
            },
            None => Err(CoreError::NotFound),
        },
        None => Err(CoreError::NotFound),
    }
}

/// What the instruction that detaches a plugin gives. The plugin must be
/// attached; it is the target of the vote, so a plugin that may never be
/// removed is kept whoever asks.
pub open spec fn remove_outcome(accounts: AssetAccounts, args: RemovePluginArgs) -> Result<
    EntityView,
    CoreError,
> {
    match opening(accounts) {
        Err(error) => Err(error),
        Ok((entity, parent)) => match attached(entity, args.plugin_type) {
            Err(error) => Err(error),
            Ok(attachment) => if !permitted(
                entity,
                parent,
                Event::RemovePlugin,
                accounts.authority.key,
                Some(attachment.plugin),
            ) {
                Err(CoreError::Authority)
            } else {
                remove_plugin_outcome(Some(entity), args.plugin_type)
            },
        },
    }
}

/// Detaches a plugin from an asset.
pub fn remove_plugin(accounts: &mut AssetAccounts, args: RemovePluginArgs) -> (r: Result<
    (),
    CoreError,
>)
    ensures
        only_asset_data_changed(*old(accounts), *final(accounts)),
        committed(
            old(accounts).asset.data@,
            final(accounts).asset.data@,
            remove_outcome(*old(accounts), args),
            r,
        ),
{
    let (entity, parent) = match open(accounts) {
        Ok(pair) => pair,
        Err(error) => { return Err(error); },
    };
    let (plugin, _) = match find_attached(&entity, args.plugin_type) {
        Ok(found) => found,
        Err(error) => { return Err(error); },
    };
    match authorize(Event::RemovePlugin, &entity, &parent, &accounts.authority.key, Some(plugin)) {
        Ok(_) => {},
        Err(error) => { return Err(error); },
    }
    crate::layout::remove_plugin(&mut accounts.asset.data, args.plugin_type)
}

/// What the instruction that writes a new state for a plugin gives.
pub open spec fn update_plugin_outcome(accounts: AssetAccounts, args: UpdatePluginArgs) -> Result<
    EntityView,
    CoreError,
> {
    match opening(accounts) {
        Err(error) => Err(error),
        Ok((entity, parent)) => match attached(entity, PluginType::spec_of(args.plugin)) {
            Err(error) => Err(error),
            Ok(_) => if !permitted(
                entity,
                parent,
                Event::UpdatePlugin,
                accounts.authority.key,
                Some(args.plugin),
            ) {
                Err(CoreError::Authority)
            } else {
                write_plugin_outcome(Some(entity), args.plugin)
            },
        },
    }
}

/// Writes a new state for an attached plugin. A plugin has the size that
/// its kind gives it, so the new state takes the place of the old one and
/// nothing else in the buffer moves.
pub fn update_plugin(accounts: &mut AssetAccounts, args: UpdatePluginArgs) -> (r: Result<
    (),
    CoreError,
>)
    ensures
        only_asset_data_changed(*old(accounts), *final(accounts)),
        committed(
            old(accounts).asset.data@,
            final(accounts).asset.data@,
            update_plugin_outcome(*old(accounts), args),
            r,
        ),
{
    let (entity, parent) = match open(accounts) {
        Ok(pair) => pair,
        Err(error) => { return Err(error); },
    };
    match find_attached(&entity, PluginType::of(&args.plugin)) {
        Ok(_) => {},
        Err(error) => { return Err(error); },
    }
    match authorize(
        Event::UpdatePlugin,
        &entity,
        &parent,
        &accounts.authority.key,
        Some(args.plugin),
    ) {
        Ok(_) => {},
        Err(error) => { return Err(error); },
    }
    crate::layout::write_plugin(&mut accounts.asset.data, args.plugin)
}

/// What the instruction that grants an authority gives. Granting an
/// authority that the plugin already has changes nothing.
pub open spec fn approve_outcome(accounts: AssetAccounts, args: ApprovePluginAuthorityArgs) -> Result<
    EntityView,
    CoreError,
> {
    match opening(accounts) {
        Err(error) => Err(error),
        Ok((entity, parent)) => match attached(entity, args.plugin_type) {
            Err(error) => Err(error),
            Ok(attachment) => if !permitted(
                entity,
                parent,
                Event::ApprovePluginAuthority,
                accounts.authority.key,
                Some(attachment.plugin),
            ) {
                Err(CoreError::Authority)
            } else if attachment.authorities.contains(args.new_authority) {
                Ok(entity)
            } else {
                set_authorities_outcome(
                    Some(entity),
                    args.plugin_type,
                    attachment.authorities.push(args.new_authority),
                )
            },
        },
    }
}

/// Grants an authority over a plugin of an asset.
pub fn approve_plugin_authority(
    accounts: &mut AssetAccounts,
    args: ApprovePluginAuthorityArgs,
) -> (r: Result<(), CoreError>)
    ensures
        only_asset_data_changed(*old(accounts), *final(accounts)),
        committed(
            old(accounts).asset.data@,
            final(accounts).asset.data@,
            approve_outcome(*old(accounts), args),
            r,
        ),
{
    let (entity, parent) = match open(accounts) {
        Ok(pair) => pair,
        Err(error) => { return Err(error); },
    };
    let (plugin, mut authorities) = match find_attached(&entity, args.plugin_type) {
        Ok(found) => found,
        Err(error) => { return Err(error); },
    };
    match authorize(
        Event::ApprovePluginAuthority,
        &entity,
        &parent,
        &accounts.authority.key,
        Some(plugin),
    ) {
        Ok(_) => {},
        Err(error) => { return Err(error); },
    }
    if contains_authority(&authorities, &args.new_authority) {
        return Ok(());
    }
    authorities.push(args.new_authority);
    crate::layout::set_authorities(&mut accounts.asset.data, args.plugin_type, authorities)
}

/// What the instruction that withdraws an authority gives. The authority
/// must be one the plugin has, and it must not be the last one.
pub open spec fn revoke_outcome(accounts: AssetAccounts, args: RevokePluginAuthorityArgs) -> Result<
    EntityView,
    CoreError,
> {
    match opening(accounts) {
        Err(error) => Err(error),
        Ok((entity, parent)) => match attached(entity, args.plugin_type) {
            Err(error) => Err(error),
            Ok(attachment) => if !permitted(
                entity,
                parent,
                Event::RevokePluginAuthority,
                accounts.authority.key,
                Some(attachment.plugin),
            ) {
                Err(CoreError::Authority)
            } else if !attachment.authorities.contains(args.authority) {
                Err(CoreError::NotFound)
            } else if attachment.authorities.len() == 1 {
                Err(CoreError::InvalidState)
            } else {
                set_authorities_outcome(
                    Some(entity),
                    args.plugin_type,
                    attachment.authorities.remove(
                        attachment.authorities.index_of_first(args.authority).unwrap(),
                    ),
                )
            },
        },
    }
}

/// The index of the first occurrence of `authority` in `authorities`.
fn index_of_authority(authorities: &Vec<Authority>, authority: &Authority) -> (r: Option<usize>)
    ensures
        match r {
            Some(i) => authorities@.contains(*authority) && authorities@.index_of_first(
                *authority,
            ) == Some(i as int) && i < authorities@.len(),
            None => !authorities@.contains(*authority),
        },
{
    let mut i: usize = 0;
    while i < authorities.len()
        invariant
            i <= authorities.len(),
            forall|j: int| 0 <= j < i ==> authorities@[j] != *authority,
        decreases authorities.len() - i,
    {
        if authorities[i] == *authority {
            proof {
                assert(authorities@.contains(*authority));
                authorities@.index_of_first_ensures(*authority);
            }
            return Some(i);
        }
        i += 1;
    }
    None
}

/// Withdraws an authority over a plugin of an asset.
pub fn revoke_plugin_authority(
    accounts: &mut AssetAccounts,
    args: RevokePluginAuthorityArgs,
) -> (r: Result<(), CoreError>)
    ensures
        only_asset_data_changed(*old(accounts), *final(accounts)),
        committed(
            old(accounts).asset.data@,
            final(accounts).asset.data@,
            revoke_outcome(*old(accounts), args),
            r,
        ),
{
    let (entity, parent) = match open(accounts) {
        Ok(pair) => pair,
        Err(error) => { return Err(error); },
    };
    let (plugin, mut authorities) = match find_attached(&entity, args.plugin_type) {
        Ok(found) => found,
        Err(error) => { return Err(error); },
    };
    match authorize(
        Event::RevokePluginAuthority,
        &entity,
        &parent,
        &accounts.authority.key,
        Some(plugin),
    ) {
        Ok(_) => {},
        Err(error) => { return Err(error); },
    }
    let i: usize = match index_of_authority(&authorities, &args.authority) {
        Some(i) => i,
        None => { return Err(CoreError::NotFound); },
    };
    if authorities.len() == 1 {
        return Err(CoreError::InvalidState);
    }
    authorities.remove(i);
    crate::layout::set_authorities(&mut accounts.asset.data, args.plugin_type, authorities)
}

/// Law of idempotence, for grants: once an authority is granted, granting
/// it again is approved for the same actors and changes nothing.
pub proof fn lemma_approve_is_idempotent(
    entity: EntityView,
    i: int,
    authority: Authority,
)
    requires
        entity.plugins is Some,
        0 <= i < entity.attachments().len(),
    ensures
        ({
            let granted = entity.with_authorities(
                i,
                entity.attachments()[i].authorities.push(authority),
            );
            &&& granted.attachments()[i].authorities.contains(authority)
            &&& granted.attachments()[i].plugin == entity.attachments()[i].plugin
            &&& granted.core == entity.core
        }),
{
    let list = entity.attachments()[i].authorities.push(authority);
    assert(list[list.len() - 1] == authority);
}

/// Law of idempotence, for withdrawals: withdrawing an authority that the
/// plugin does not have is answered with `NotFound`, even for an actor who
/// may withdraw authorities, and so leaves the buffer as it was.
pub proof fn lemma_revoke_of_absent_is_not_found(
    accounts: AssetAccounts,
    args: RevokePluginAuthorityArgs,
)
    requires
        opening(accounts) is Ok,
        attached(opening(accounts).unwrap().0, args.plugin_type) is Ok,
        permitted(
            opening(accounts).unwrap().0,
            opening(accounts).unwrap().1,
            Event::RevokePluginAuthority,
            accounts.authority.key,
            Some(attached(opening(accounts).unwrap().0, args.plugin_type).unwrap().plugin),
        ),
        !attached(opening(accounts).unwrap().0, args.plugin_type).unwrap().authorities.contains(
            args.authority,
        ),
    ensures
        revoke_outcome(accounts, args) == Err::<EntityView, CoreError>(CoreError::NotFound),
{
}

/// Law of the edition, on removal: an attached edition is never removed,
/// whoever asks and whatever authority the asker holds.
pub proof fn lemma_edition_is_never_removed(accounts: AssetAccounts)
    requires
        opening(accounts) is Ok,
        attached(opening(accounts).unwrap().0, PluginType::Edition) is Ok,
    ensures
        remove_outcome(accounts, RemovePluginArgs { plugin_type: PluginType::Edition })
            == Err::<EntityView, CoreError>(CoreError::Authority),
{
    let (entity, parent) = opening(accounts).unwrap();
    let i = entity.position(PluginType::Edition).unwrap();
    let attachment = entity.attachments()[i];
    lemma_position_of(entity.records(), PluginType::Edition);
    assert(entity.records()[i].plugin_type == PluginType::spec_of(attachment.plugin));
    assert(attachment.plugin is Edition);
    crate::validation::lemma_plugin_rejection_is_final(
        entity,
        parent,
        Event::RemovePlugin,
        accounts.authority.key,
        Some(attachment.plugin),
        i,
    );
}

/// Law of the edition, on attachment: an edition is never attached to an
/// asset that exists, whoever asks and whatever authority the asker holds.
pub proof fn lemma_edition_is_never_added(accounts: AssetAccounts, args: AddPluginArgs)
    requires
        opening(accounts) is Ok,
        args.plugin is Edition,
    ensures
        add_outcome(accounts, args) == Err::<EntityView, CoreError>(CoreError::Authority),
{
    let (entity, parent) = opening(accounts).unwrap();
    let all = crate::validation::votes(
        entity,
        parent,
        Event::AddPlugin,
        accounts.authority.key,
        Some(args.plugin),
    );
    assert(all[1] == ValidationResult::Rejected);
    crate::validation::lemma_rejection_is_absolute(all, 1);
}

} // verus!
