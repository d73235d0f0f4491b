use mpl_core::entity::AttachedPlugin;
use mpl_core::entity::Entity;
use mpl_core::error::CoreError;
use mpl_core::layout::fetch_plugin;
use mpl_core::plugins::delegate::Delegate;
use mpl_core::plugins::edition::Edition;
use mpl_core::plugins::royalties::Royalties;
use mpl_core::plugins::Plugin;
use mpl_core::plugins::PluginType;
use mpl_core::processor::assert_signer;
use mpl_core::processor::plugin::add_plugin;
use mpl_core::processor::plugin::approve_plugin_authority;
use mpl_core::processor::plugin::remove_plugin;
use mpl_core::processor::plugin::revoke_plugin_authority;
use mpl_core::processor::plugin::update_plugin;
use mpl_core::processor::plugin::AddPluginArgs;
use mpl_core::processor::plugin::ApprovePluginAuthorityArgs;
use mpl_core::processor::plugin::RemovePluginArgs;
use mpl_core::processor::plugin::RevokePluginAuthorityArgs;
use mpl_core::processor::plugin::UpdatePluginArgs;
use mpl_core::processor::thaw::freeze;
use mpl_core::processor::thaw::thaw;
use mpl_core::processor::thaw::FreezeAccounts;
use mpl_core::processor::thaw::FreezeArgs;
use mpl_core::processor::thaw::ThawAccounts;
use mpl_core::processor::thaw::ThawArgs;
use mpl_core::processor::transfer::burn;
use mpl_core::processor::transfer::transfer;
use mpl_core::processor::transfer::BurnArgs;
use mpl_core::processor::transfer::TransferArgs;
use mpl_core::processor::update::update;
use mpl_core::processor::update::update_collection;
use mpl_core::processor::update::UpdateAccounts;
use mpl_core::processor::update::UpdateArgs;
use mpl_core::processor::update::UpdateCollectionAccounts;
use mpl_core::processor::update::UpdateCollectionArgs;
use mpl_core::processor::Account;
use mpl_core::processor::AssetAccounts;
use mpl_core::state::Asset;
use mpl_core::state::Authority;
use mpl_core::state::Collection;
use mpl_core::state::Core;
use mpl_core::state::Pubkey;
use mpl_core::state::UpdateAuthority;

fn key(byte: u8) -> Pubkey {
    Pubkey::new_from_array([byte; 32])
}

fn owner() -> Pubkey {
    key(1)
}

fn updater() -> Pubkey {
    key(2)
}

fn delegate_a() -> Pubkey {
    key(0xa)
}

fn stranger() -> Pubkey {
    key(99)
}

fn signer(key: Pubkey) -> Account {
    Account { key, is_signer: true, data: Vec::new() }
}

fn asset_core(name: &str) -> Core {
    Core::Asset(Asset {
        owner: owner(),
        update_authority: UpdateAuthority::Address(updater()),
        name: String::from(name),
        uri: String::from("uri"),
    })
}

fn entity(name: &str, plugins: Option<Vec<AttachedPlugin>>) -> Entity {
    Entity { core: asset_core(name), plugins }
}

fn holding(entity: &Entity) -> Account {
    Account { key: key(40), is_signer: false, data: entity.serialize().unwrap() }
}

fn delegate(frozen: bool, authorities: Vec<Authority>) -> AttachedPlugin {
    AttachedPlugin { plugin: Plugin::Delegate(Delegate { frozen }), authorities }
}

fn edition(number: u32) -> AttachedPlugin {
    AttachedPlugin {
        plugin: Plugin::Edition(Edition { number }),
        authorities: vec![Authority::UpdateAuthority],
    }
}

fn royalties(basis_points: u32) -> Plugin {
    Plugin::Royalties(Royalties {
        basis_points,
        creator: key(9),
        percentage: 100,
        enforced: false,
        primary_sale_happened: false,
    })
}

fn address(key: Pubkey) -> Authority {
    Authority::Address { address: key }
}

fn accounts(entity: &Entity, actor: Pubkey) -> AssetAccounts {
    AssetAccounts { asset: holding(entity), collection: None, authority: signer(actor), payer: None }
}

fn update_accounts(entity: &Entity, actor: Pubkey) -> UpdateAccounts {
    UpdateAccounts {
        asset: holding(entity),
        collection: None,
        authority: signer(actor),
        payer: None,
        new_update_authority: None,
    }
}

fn rename(name: &str) -> UpdateArgs {
    UpdateArgs { new_name: Some(String::from(name)), new_uri: None }
}

#[test]
fn update_by_the_update_authority_is_carried_out() {
    let before = entity("old", None);
    let mut accounts = update_accounts(&before, updater());
    assert_eq!(update(&mut accounts, rename("a new name")), Ok(()));
    assert_eq!(accounts.asset.data, entity("a new name", None).serialize().unwrap());
}

#[test]
fn update_by_a_stranger_is_denied() {
    let before = entity("old", None);
    let mut accounts = update_accounts(&before, stranger());
    assert_eq!(update(&mut accounts, rename("a new name")), Err(CoreError::Authority));
    assert_eq!(accounts.asset.data, before.serialize().unwrap());
}

#[test]
fn update_needs_the_signature_of_the_actor_and_of_the_payer() {
    let before = entity("old", None);
    let mut unsigned = update_accounts(&before, updater());
    unsigned.authority.is_signer = false;
    assert_eq!(update(&mut unsigned, rename("new")), Err(CoreError::Authority));
    assert_eq!(unsigned.asset.data, before.serialize().unwrap());

    let mut unpaid = update_accounts(&before, updater());
    unpaid.payer = Some(Account { key: key(70), is_signer: false, data: Vec::new() });
    assert_eq!(update(&mut unpaid, rename("new")), Err(CoreError::Authority));

    let mut paid = update_accounts(&before, updater());
    paid.payer = Some(signer(key(70)));
    assert_eq!(update(&mut paid, rename("new")), Ok(()));
    assert_eq!(paid.asset.data, entity("new", None).serialize().unwrap());

    assert_eq!(assert_signer(&signer(key(1))), Ok(()));
    assert_eq!(
        assert_signer(&Account { key: key(1), is_signer: false, data: Vec::new() }),
        Err(CoreError::Authority)
    );
}

#[test]
fn update_sets_name_uri_and_update_authority() {
    let before = entity("old", Some(vec![edition(5), delegate(false, vec![Authority::Owner])]));
    let mut accounts = update_accounts(&before, updater());
    accounts.new_update_authority = Some(Account { key: key(3), is_signer: false, data: Vec::new() });
    let args = UpdateArgs {
        new_name: Some(String::from("a longer name")),
        new_uri: Some(String::from("u")),
    };
    assert_eq!(update(&mut accounts, args), Ok(()));
    let expected = Entity {
        core: Core::Asset(Asset {
            owner: owner(),
            update_authority: UpdateAuthority::Address(key(3)),
            name: String::from("a longer name"),
            uri: String::from("u"),
        }),
        plugins: before.plugins.clone(),
    };
    assert_eq!(accounts.asset.data, expected.serialize().unwrap());
    assert_eq!(Entity::deserialize(&accounts.asset.data), Ok(expected));
}

#[test]
fn update_that_asks_for_nothing_changes_nothing() {
    let before = entity("old", Some(vec![edition(5)]));
    let mut accounts = update_accounts(&before, updater());
    assert_eq!(update(&mut accounts, UpdateArgs { new_name: None, new_uri: None }), Ok(()));
    assert_eq!(accounts.asset.data, before.serialize().unwrap());
}

#[test]
fn update_refuses_accounts_that_hold_something_else() {
    let collection = Entity {
        core: Core::Collection(Collection {
            update_authority: updater(),
            name: String::from("c"),
            uri: String::new(),
        }),
        plugins: None,
    };
    let mut not_an_asset = update_accounts(&collection, updater());
    assert_eq!(update(&mut not_an_asset, rename("new")), Err(CoreError::InvalidState));

    let asset = entity("old", None);
    let mut garbage = update_accounts(&asset, updater());
    garbage.asset.data = vec![1, 2, 3];
    assert_eq!(update(&mut garbage, rename("new")), Err(CoreError::Layout));
    assert_eq!(garbage.asset.data, vec![1, 2, 3]);

    let mut bad_parent = update_accounts(&asset, updater());
    bad_parent.collection = Some(Account { key: key(50), is_signer: false, data: vec![5] });
    assert_eq!(update(&mut bad_parent, rename("new")), Err(CoreError::Layout));

    let mut asset_as_parent = update_accounts(&asset, updater());
    asset_as_parent.collection = Some(holding(&asset));
    assert_eq!(update(&mut asset_as_parent, rename("new")), Err(CoreError::InvalidState));
}

#[test]
fn update_through_the_collection() {
    let collection = Entity {
        core: Core::Collection(Collection {
            update_authority: key(51),
            name: String::from("c"),
            uri: String::new(),
        }),
        plugins: None,
    };
    let asset = Entity {
        core: Core::Asset(Asset {
            owner: owner(),
            update_authority: UpdateAuthority::Collection(key(50)),
            name: String::from("old"),
            uri: String::new(),
        }),
        plugins: None,
    };
    let parent = Account { key: key(50), is_signer: false, data: collection.serialize().unwrap() };

    let mut accounts = update_accounts(&asset, key(51));
    accounts.collection = Some(parent.clone());
    assert_eq!(update(&mut accounts, rename("new")), Ok(()));
    assert_eq!(accounts.collection, Some(parent));

    let mut without = update_accounts(&asset, key(51));
    assert_eq!(update(&mut without, rename("new")), Err(CoreError::Authority));
}

#[test]
fn collection_is_updated_by_its_update_authority() {
    let before = Entity {
        core: Core::Collection(Collection {
            update_authority: updater(),
            name: String::from("old"),
            uri: String::from("uri"),
        }),
        plugins: Some(vec![delegate(false, vec![Authority::Owner])]),
    };
    let mut accounts = UpdateCollectionAccounts {
        collection: holding(&before),
        authority: signer(updater()),
        payer: None,
        new_update_authority: Some(Account { key: key(3), is_signer: false, data: Vec::new() }),
    };
    let args = UpdateCollectionArgs { new_name: Some(String::from("new")), new_uri: None };
    assert_eq!(update_collection(&mut accounts, args.clone()), Ok(()));
    let expected = Entity {
        core: Core::Collection(Collection {
            update_authority: key(3),
            name: String::from("new"),
            uri: String::from("uri"),
        }),
        plugins: before.plugins.clone(),
    };
    assert_eq!(accounts.collection.data, expected.serialize().unwrap());

    let mut denied = UpdateCollectionAccounts {
        collection: holding(&before),
        authority: signer(stranger()),
        payer: None,
        new_update_authority: None,
    };
    assert_eq!(update_collection(&mut denied, args.clone()), Err(CoreError::Authority));

    let mut not_a_collection = UpdateCollectionAccounts {
        collection: holding(&entity("a", None)),
        authority: signer(updater()),
        payer: None,
        new_update_authority: None,
    };
    assert_eq!(update_collection(&mut not_a_collection, args), Err(CoreError::InvalidState));
}

#[test]
fn delegate_freezes_the_asset_and_the_holder_does_not() {
    let before = entity("a", Some(vec![delegate(false, vec![address(delegate_a())])]));

    let mut by_delegate =
        FreezeAccounts { asset_address: holding(&before), delegate: signer(delegate_a()) };
    assert_eq!(freeze(&mut by_delegate, FreezeArgs {}), Ok(()));
    assert_eq!(
        fetch_plugin(&by_delegate.asset_address.data, PluginType::Delegate).unwrap().1,
        Plugin::Delegate(Delegate { frozen: true })
    );
    assert_eq!(
        by_delegate.asset_address.data,
        entity("a", Some(vec![delegate(true, vec![address(delegate_a())])])).serialize().unwrap()
    );

    let mut by_owner = FreezeAccounts { asset_address: holding(&before), delegate: signer(owner()) };
    assert_eq!(freeze(&mut by_owner, FreezeArgs {}), Err(CoreError::Authority));
    assert_eq!(by_owner.asset_address.data, before.serialize().unwrap());
}

#[test]
fn delegate_thaws_the_asset() {
    let before = entity("a", Some(vec![edition(1), delegate(true, vec![address(delegate_a())])]));
    let mut accounts =
        ThawAccounts { asset_address: holding(&before), delegate: signer(delegate_a()) };
    assert_eq!(thaw(&mut accounts, ThawArgs {}), Ok(()));
    assert_eq!(
        accounts.asset_address.data,
        entity("a", Some(vec![edition(1), delegate(false, vec![address(delegate_a())])]))
            .serialize()
            .unwrap()
    );

    let mut unsigned = ThawAccounts {
        asset_address: holding(&before),
        delegate: Account { key: delegate_a(), is_signer: false, data: Vec::new() },
    };
    assert_eq!(thaw(&mut unsigned, ThawArgs {}), Err(CoreError::Authority));

    let mut by_stranger =
        ThawAccounts { asset_address: holding(&before), delegate: signer(stranger()) };
    assert_eq!(thaw(&mut by_stranger, ThawArgs {}), Err(CoreError::Authority));
    assert_eq!(by_stranger.asset_address.data, before.serialize().unwrap());
}

#[test]
fn thaw_needs_a_delegate_plugin() {
    let mut none = ThawAccounts {
        asset_address: holding(&entity("a", None)),
        delegate: signer(delegate_a()),
    };
    assert_eq!(thaw(&mut none, ThawArgs {}), Err(CoreError::NotFound));
    let mut other = ThawAccounts {
        asset_address: holding(&entity("a", Some(vec![edition(1)]))),
        delegate: signer(delegate_a()),
    };
    assert_eq!(thaw(&mut other, ThawArgs {}), Err(CoreError::NotFound));
    let mut garbage = ThawAccounts {
        asset_address: Account { key: key(40), is_signer: false, data: vec![0; 10] },
        delegate: signer(delegate_a()),
    };
    assert_eq!(thaw(&mut garbage, ThawArgs {}), Err(CoreError::Layout));
}

#[test]
fn holder_as_authority_of_the_delegate_plugin_may_freeze() {
    let before = entity("a", Some(vec![delegate(false, vec![Authority::Owner])]));
    let mut accounts = FreezeAccounts { asset_address: holding(&before), delegate: signer(owner()) };
    assert_eq!(freeze(&mut accounts, FreezeArgs {}), Ok(()));
}

#[test]
fn holder_attaches_a_plugin_with_the_manager_of_its_kind() {
    let before = entity("a", None);
    let mut accounts = accounts(&before, owner());
    let args = AddPluginArgs { plugin: royalties(500), init_authority: None };
    assert_eq!(add_plugin(&mut accounts, args), Ok(()));
    let expected = entity(
        "a",
        Some(vec![AttachedPlugin {
            plugin: royalties(500),
            authorities: vec![Authority::UpdateAuthority],
        }]),
    );
    assert_eq!(accounts.asset.data, expected.serialize().unwrap());

    let args = AddPluginArgs {
        plugin: Plugin::Delegate(Delegate { frozen: false }),
        init_authority: Some(address(delegate_a())),
    };
    assert_eq!(add_plugin(&mut accounts, args.clone()), Ok(()));
    assert_eq!(
        fetch_plugin(&accounts.asset.data, PluginType::Delegate).unwrap().0,
        vec![address(delegate_a())]
    );
    // a second delegate is one too many
    let after = accounts.asset.data.clone();
    assert_eq!(add_plugin(&mut accounts, args), Err(CoreError::InvalidState));
    assert_eq!(accounts.asset.data, after);
}

#[test]
fn stranger_attaches_nothing() {
    let before = entity("a", None);
    let mut accounts = accounts(&before, stranger());
    let args = AddPluginArgs { plugin: royalties(500), init_authority: None };
    assert_eq!(add_plugin(&mut accounts, args), Err(CoreError::Authority));
    assert_eq!(accounts.asset.data, before.serialize().unwrap());
}

#[test]
fn edition_is_not_attached_by_anyone() {
    let before = entity("a", None);
    for actor in [owner(), updater(), stranger()] {
        let mut accounts = accounts(&before, actor);
        let args =
            AddPluginArgs { plugin: Plugin::Edition(Edition { number: 1 }), init_authority: None };
        assert_eq!(add_plugin(&mut accounts, args), Err(CoreError::Authority));
        assert_eq!(accounts.asset.data, before.serialize().unwrap());
    }
}

#[test]
fn edition_is_not_removed_by_anyone() {
    let before = entity(
        "a",
        Some(vec![AttachedPlugin {
            plugin: Plugin::Edition(Edition { number: 1 }),
            authorities: vec![Authority::Owner, Authority::UpdateAuthority, address(key(7))],
        }]),
    );
    for actor in [owner(), updater(), key(7), stranger()] {
        let mut accounts = accounts(&before, actor);
        let args = RemovePluginArgs { plugin_type: PluginType::Edition };
        assert_eq!(remove_plugin(&mut accounts, args), Err(CoreError::Authority));
        assert_eq!(accounts.asset.data, before.serialize().unwrap());
    }
}

#[test]
fn holder_removes_a_plugin() {
    let before =
        entity("a", Some(vec![delegate(false, vec![Authority::Owner]), edition(3)]));
    let mut done = accounts(&before, owner());
    assert_eq!(
        remove_plugin(&mut done, RemovePluginArgs { plugin_type: PluginType::Delegate }),
        Ok(())
    );
    assert_eq!(done.asset.data, entity("a", Some(vec![edition(3)])).serialize().unwrap());

    let mut absent = accounts(&before, owner());
    assert_eq!(
        remove_plugin(&mut absent, RemovePluginArgs { plugin_type: PluginType::Royalties }),
        Err(CoreError::NotFound)
    );
    let mut denied = accounts(&before, stranger());
    assert_eq!(
        remove_plugin(&mut denied, RemovePluginArgs { plugin_type: PluginType::Delegate }),
        Err(CoreError::Authority)
    );
    assert_eq!(denied.asset.data, before.serialize().unwrap());
}

#[test]
fn approving_twice_is_the_same_as_once() {
    let before = entity("a", Some(vec![delegate(false, vec![Authority::Owner])]));
    let mut accounts = accounts(&before, owner());
    let args = ApprovePluginAuthorityArgs {
        plugin_type: PluginType::Delegate,
        new_authority: address(delegate_a()),
    };
    assert_eq!(approve_plugin_authority(&mut accounts, args.clone()), Ok(()));
    let once = accounts.asset.data.clone();
    assert_eq!(
        once,
        entity("a", Some(vec![delegate(false, vec![Authority::Owner, address(delegate_a())])]))
            .serialize()
            .unwrap()
    );
    assert_eq!(approve_plugin_authority(&mut accounts, args), Ok(()));
    assert_eq!(accounts.asset.data, once);
}

#[test]
fn approving_needs_the_plugin_and_the_holder() {
    let before = entity("a", Some(vec![delegate(false, vec![Authority::Owner])]));
    let mut absent = accounts(&before, owner());
    let args = ApprovePluginAuthorityArgs {
        plugin_type: PluginType::Edition,
        new_authority: address(delegate_a()),
    };
    assert_eq!(approve_plugin_authority(&mut absent, args), Err(CoreError::NotFound));
    let mut denied = accounts(&before, delegate_a());
    let args = ApprovePluginAuthorityArgs {
        plugin_type: PluginType::Delegate,
        new_authority: address(delegate_a()),
    };
    assert_eq!(approve_plugin_authority(&mut denied, args), Err(CoreError::Authority));
    assert_eq!(denied.asset.data, before.serialize().unwrap());
}

#[test]
fn revoking_an_authority_that_is_not_there_is_not_found() {
    let before =
        entity("a", Some(vec![delegate(false, vec![Authority::Owner, address(delegate_a())])]));
    let mut accounts = accounts(&before, owner());
    let args = RevokePluginAuthorityArgs {
        plugin_type: PluginType::Delegate,
        authority: address(stranger()),
    };
    assert_eq!(revoke_plugin_authority(&mut accounts, args), Err(CoreError::NotFound));
    assert_eq!(accounts.asset.data, before.serialize().unwrap());
    let args = RevokePluginAuthorityArgs {
        plugin_type: PluginType::Royalties,
        authority: Authority::Owner,
    };
    assert_eq!(revoke_plugin_authority(&mut accounts, args), Err(CoreError::NotFound));
    assert_eq!(accounts.asset.data, before.serialize().unwrap());
}

#[test]
fn revoking_removes_one_authority_but_never_the_last() {
    let before =
        entity("a", Some(vec![delegate(false, vec![Authority::Owner, address(delegate_a())])]));
    let mut accounts = accounts(&before, owner());
    let args = RevokePluginAuthorityArgs {
        plugin_type: PluginType::Delegate,
        authority: Authority::Owner,
    };
    assert_eq!(revoke_plugin_authority(&mut accounts, args), Ok(()));
    let after = entity("a", Some(vec![delegate(false, vec![address(delegate_a())])]));
    assert_eq!(accounts.asset.data, after.serialize().unwrap());

    let args = RevokePluginAuthorityArgs {
        plugin_type: PluginType::Delegate,
        authority: address(delegate_a()),
    };
    assert_eq!(revoke_plugin_authority(&mut accounts, args), Err(CoreError::InvalidState));
    assert_eq!(accounts.asset.data, after.serialize().unwrap());
}

#[test]
fn delegate_gives_up_its_own_authority() {
    let before =
        entity("a", Some(vec![delegate(false, vec![Authority::Owner, address(delegate_a())])]));
    let mut accounts = accounts(&before, delegate_a());
    let args = RevokePluginAuthorityArgs {
        plugin_type: PluginType::Delegate,
        authority: address(delegate_a()),
    };
    assert_eq!(revoke_plugin_authority(&mut accounts, args.clone()), Ok(()));
    assert_eq!(
        accounts.asset.data,
        entity("a", Some(vec![delegate(false, vec![Authority::Owner])])).serialize().unwrap()
    );
    let mut by_stranger = self::accounts(&before, stranger());
    assert_eq!(revoke_plugin_authority(&mut by_stranger, args), Err(CoreError::Authority));
}

#[test]
fn creator_rewrites_the_royalties_in_place() {
    let before = entity(
        "a",
        Some(vec![
            AttachedPlugin { plugin: royalties(500), authorities: vec![Authority::UpdateAuthority] },
            edition(2),
        ]),
    );
    let mut accounts = accounts(&before, key(9));
    assert_eq!(update_plugin(&mut accounts, UpdatePluginArgs { plugin: royalties(750) }), Ok(()));
    let expected = entity(
        "a",
        Some(vec![
            AttachedPlugin { plugin: royalties(750), authorities: vec![Authority::UpdateAuthority] },
            edition(2),
        ]),
    );
    assert_eq!(accounts.asset.data, expected.serialize().unwrap());

    let mut denied = self::accounts(&before, stranger());
    assert_eq!(
        update_plugin(&mut denied, UpdatePluginArgs { plugin: royalties(750) }),
        Err(CoreError::Authority)
    );
    let mut absent = self::accounts(&before, owner());
    assert_eq!(
        update_plugin(
            &mut absent,
            UpdatePluginArgs { plugin: Plugin::Delegate(Delegate { frozen: true }) }
        ),
        Err(CoreError::NotFound)
    );
}

#[test]
fn holder_transfers_an_asset_that_is_not_frozen() {
    let before = entity("a", Some(vec![delegate(false, vec![address(delegate_a())])]));
    let mut accounts = accounts(&before, owner());
    assert_eq!(transfer(&mut accounts, TransferArgs { new_owner: key(8) }), Ok(()));
    let expected = Entity {
        core: Core::Asset(Asset {
            owner: key(8),
            update_authority: UpdateAuthority::Address(updater()),
            name: String::from("a"),
            uri: String::from("uri"),
        }),
        plugins: before.plugins.clone(),
    };
    assert_eq!(accounts.asset.data, expected.serialize().unwrap());
    // the old holder has no say any more
    assert_eq!(
        transfer(&mut accounts, TransferArgs { new_owner: owner() }),
        Err(CoreError::Authority)
    );

    let mut by_delegate = self::accounts(&before, delegate_a());
    assert_eq!(transfer(&mut by_delegate, TransferArgs { new_owner: key(8) }), Ok(()));
}

#[test]
fn frozen_asset_is_neither_transferred_nor_burned() {
    let before = entity("a", Some(vec![delegate(true, vec![address(delegate_a())])]));
    let mut accounts = accounts(&before, owner());
    assert_eq!(
        transfer(&mut accounts, TransferArgs { new_owner: key(8) }),
        Err(CoreError::Authority)
    );
    assert_eq!(burn(&mut accounts, BurnArgs {}), Err(CoreError::Authority));
    assert_eq!(accounts.asset.data, before.serialize().unwrap());
}

#[test]
fn burn_empties_the_buffer() {
    let before = entity("a", Some(vec![edition(1)]));
    let mut denied = accounts(&before, stranger());
    assert_eq!(burn(&mut denied, BurnArgs {}), Err(CoreError::Authority));
    assert_eq!(denied.asset.data, before.serialize().unwrap());
    let mut accounts = accounts(&before, owner());
    assert_eq!(burn(&mut accounts, BurnArgs {}), Ok(()));
    assert!(accounts.asset.data.is_empty());
    assert_eq!(accounts.asset.key, key(40));
}
