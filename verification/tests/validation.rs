use mpl_core::authority::assert_authority;
use mpl_core::authority::has_authority;
use mpl_core::authority::holder;
use mpl_core::authority::resolve_update_authority;
use mpl_core::authority::Parent;
use mpl_core::entity::AttachedPlugin;
use mpl_core::entity::Entity;
use mpl_core::error::CoreError;
use mpl_core::plugins::contains_authority;
use mpl_core::plugins::delegate::Delegate;
use mpl_core::plugins::edition::Edition;
use mpl_core::plugins::royalties::Royalties;
use mpl_core::plugins::CheckResult;
use mpl_core::plugins::Event;
use mpl_core::plugins::Plugin;
use mpl_core::plugins::PluginType;
use mpl_core::plugins::PluginValidationContext;
use mpl_core::plugins::ValidationResult;
use mpl_core::state::Asset;
use mpl_core::state::Authority;
use mpl_core::state::Collection;
use mpl_core::state::Core;
use mpl_core::state::Pubkey;
use mpl_core::state::UpdateAuthority;
use mpl_core::validation::check_core;
use mpl_core::validation::tally;
use mpl_core::validation::validate;
use mpl_core::validation::vote_of_core;
use mpl_core::validation::vote_of_plugin;
use mpl_core::validation::Decision;

const EVENTS: [Event; 10] = [
    Event::AddPlugin,
    Event::RemovePlugin,
    Event::UpdatePlugin,
    Event::ApprovePluginAuthority,
    Event::RevokePluginAuthority,
    Event::Update,
    Event::Transfer,
    Event::Burn,
    Event::Compress,
    Event::Decompress,
];

fn key(byte: u8) -> Pubkey {
    Pubkey::new_from_array([byte; 32])
}

fn owner() -> Pubkey {
    key(1)
}

fn updater() -> Pubkey {
    key(2)
}

fn stranger() -> Pubkey {
    key(99)
}

fn asset_core(update_authority: UpdateAuthority) -> Core {
    Core::Asset(Asset {
        owner: owner(),
        update_authority,
        name: String::from("asset"),
        uri: String::from("https://example.com/a"),
    })
}

fn asset_with(plugins: Option<Vec<AttachedPlugin>>) -> Entity {
    Entity { core: asset_core(UpdateAuthority::Address(updater())), plugins }
}

fn collection_with(plugins: Option<Vec<AttachedPlugin>>) -> Parent {
    Parent {
        key: key(50),
        entity: Entity {
            core: Core::Collection(Collection {
                update_authority: key(51),
                name: String::from("collection"),
                uri: String::new(),
            }),
            plugins,
        },
    }
}

fn delegate(frozen: bool, authorities: Vec<Authority>) -> AttachedPlugin {
    AttachedPlugin { plugin: Plugin::Delegate(Delegate { frozen }), authorities }
}

fn edition(authorities: Vec<Authority>) -> AttachedPlugin {
    AttachedPlugin { plugin: Plugin::Edition(Edition { number: 1 }), authorities }
}

fn address(key: Pubkey) -> Authority {
    Authority::Address { address: key }
}

#[test]
fn one_rejection_is_final() {
    assert_eq!(tally(&vec![ValidationResult::Rejected]), Decision::Rejected);
    assert_eq!(
        tally(&vec![
            ValidationResult::Approved,
            ValidationResult::Approved,
            ValidationResult::Rejected,
            ValidationResult::Approved
        ]),
        Decision::Rejected
    );
    assert_eq!(
        tally(&vec![ValidationResult::Rejected, ValidationResult::Approved]),
        Decision::Rejected
    );
    assert_eq!(
        tally(&vec![
            ValidationResult::Pass,
            ValidationResult::Approved,
            ValidationResult::Pass,
            ValidationResult::Rejected
        ]),
        Decision::Rejected
    );
}

#[test]
fn without_votes_the_answer_is_no() {
    assert_eq!(tally(&Vec::new()), Decision::Denied);
    assert_eq!(
        tally(&vec![ValidationResult::Pass, ValidationResult::Pass, ValidationResult::Pass]),
        Decision::Denied
    );
}

#[test]
fn one_approval_suffices_when_nobody_rejects() {
    assert_eq!(tally(&vec![ValidationResult::Approved]), Decision::Approved);
    assert_eq!(
        tally(&vec![
            ValidationResult::Pass,
            ValidationResult::Pass,
            ValidationResult::Approved,
            ValidationResult::Pass
        ]),
        Decision::Approved
    );
}

#[test]
fn update_of_a_bare_asset_is_for_its_update_authority() {
    let asset = asset_with(None);
    let nobody: Option<Parent> = None;
    assert_eq!(validate(Event::Update, &asset, &nobody, &updater(), None), Decision::Approved);
    assert_eq!(validate(Event::Update, &asset, &nobody, &stranger(), None), Decision::Denied);
    // the holder is not the update authority of this asset
    assert_eq!(validate(Event::Update, &asset, &nobody, &owner(), None), Decision::Denied);
}

#[test]
fn everything_but_the_update_is_for_the_holder() {
    let asset = asset_with(None);
    let nobody: Option<Parent> = None;
    for event in EVENTS {
        if event == Event::Update {
            continue;
        }
        assert_eq!(validate(event, &asset, &nobody, &owner(), None), Decision::Approved);
        assert_eq!(validate(event, &asset, &nobody, &updater(), None), Decision::Denied);
    }
}

#[test]
fn collection_does_not_vote_on_transfer_or_burn() {
    let collection = collection_with(None);
    for event in EVENTS {
        let expected = match event {
            Event::Transfer | Event::Burn | Event::Compress | Event::Decompress => {
                CheckResult::NoVote
            }
            _ => CheckResult::CanApprove,
        };
        assert_eq!(check_core(&collection.entity.core, event), expected);
        assert_eq!(check_core(&asset_core(UpdateAuthority::Owner), event), CheckResult::CanApprove);
    }
    let nobody: Option<Parent> = None;
    assert_eq!(
        vote_of_core(&collection.entity.core, &nobody, Event::Transfer, &key(51)),
        ValidationResult::Pass
    );
    assert_eq!(
        vote_of_core(&collection.entity.core, &nobody, Event::Update, &key(51)),
        ValidationResult::Approved
    );
    assert_eq!(
        validate(Event::Transfer, &collection.entity, &nobody, &key(51), None),
        Decision::Denied
    );
}

#[test]
fn frozen_asset_is_not_transferred_even_by_its_holder() {
    let nobody: Option<Parent> = None;
    let thawed = asset_with(Some(vec![delegate(false, vec![address(key(7))])]));
    let frozen = asset_with(Some(vec![delegate(true, vec![address(key(7))])]));
    assert_eq!(validate(Event::Transfer, &thawed, &nobody, &owner(), None), Decision::Approved);
    assert_eq!(validate(Event::Transfer, &thawed, &nobody, &key(7), None), Decision::Approved);
    assert_eq!(validate(Event::Transfer, &thawed, &nobody, &stranger(), None), Decision::Denied);
    assert_eq!(validate(Event::Transfer, &frozen, &nobody, &owner(), None), Decision::Rejected);
    assert_eq!(validate(Event::Transfer, &frozen, &nobody, &key(7), None), Decision::Rejected);
    assert_eq!(validate(Event::Burn, &frozen, &nobody, &owner(), None), Decision::Rejected);
    assert_eq!(validate(Event::Burn, &thawed, &nobody, &owner(), None), Decision::Approved);
    assert_eq!(validate(Event::Burn, &thawed, &nobody, &key(7), None), Decision::Denied);
}

#[test]
fn plugin_of_the_collection_votes_on_an_asset_without_its_own() {
    let asset = asset_with(None);
    let frozen = Some(collection_with(Some(vec![delegate(true, vec![Authority::Owner])])));
    let thawed = Some(collection_with(Some(vec![delegate(false, vec![address(key(7))])])));
    assert_eq!(validate(Event::Transfer, &asset, &frozen, &owner(), None), Decision::Rejected);
    assert_eq!(validate(Event::Transfer, &asset, &thawed, &key(7), None), Decision::Approved);
}

#[test]
fn plugin_of_the_asset_overrides_the_one_of_the_collection() {
    let frozen = Some(collection_with(Some(vec![delegate(true, vec![Authority::Owner])])));
    let asset = asset_with(Some(vec![delegate(false, vec![address(key(7))])]));
    // the collection's delegate would reject; the asset's own approves
    assert_eq!(validate(Event::Transfer, &asset, &frozen, &key(7), None), Decision::Approved);
    assert_eq!(validate(Event::Transfer, &asset, &frozen, &owner(), None), Decision::Approved);

    // and the other way round: the asset's own rejects, whatever the collection says
    let thawed = Some(collection_with(Some(vec![delegate(false, vec![address(key(7))])])));
    let frozen_asset = asset_with(Some(vec![delegate(true, vec![Authority::Owner])]));
    assert_eq!(
        validate(Event::Transfer, &frozen_asset, &thawed, &key(7), None),
        Decision::Rejected
    );

    // a plugin of another kind on the asset overrides nothing
    let with_edition = asset_with(Some(vec![edition(vec![Authority::UpdateAuthority])]));
    assert_eq!(
        validate(Event::Transfer, &with_edition, &frozen, &owner(), None),
        Decision::Rejected
    );
}

#[test]
fn edition_is_never_removed() {
    let nobody: Option<Parent> = None;
    let target = Some(Plugin::Edition(Edition { number: 1 }));
    let asset = Entity {
        core: asset_core(UpdateAuthority::Owner),
        plugins: Some(vec![edition(vec![
            Authority::Owner,
            Authority::UpdateAuthority,
            address(key(7)),
        ])]),
    };
    for actor in [owner(), key(7), stranger()] {
        assert_eq!(
            validate(Event::RemovePlugin, &asset, &nobody, &actor, target),
            Decision::Rejected
        );
    }
    // removing another plugin is not its business
    let other = Some(Plugin::Delegate(Delegate { frozen: false }));
    assert_eq!(
        validate(Event::RemovePlugin, &asset, &nobody, &owner(), other),
        Decision::Approved
    );
}

#[test]
fn edition_is_never_attached_after_creation() {
    let nobody: Option<Parent> = None;
    let target = Some(Plugin::Edition(Edition { number: 1 }));
    let asset = Entity { core: asset_core(UpdateAuthority::Owner), plugins: None };
    assert_eq!(validate(Event::AddPlugin, &asset, &nobody, &owner(), target), Decision::Rejected);
    let other = Some(Plugin::Delegate(Delegate { frozen: false }));
    assert_eq!(validate(Event::AddPlugin, &asset, &nobody, &owner(), other), Decision::Approved);
    assert_eq!(validate(Event::AddPlugin, &asset, &nobody, &stranger(), other), Decision::Denied);
}

#[test]
fn edition_votes_as_its_rules_say() {
    let edition = Edition { number: 3 };
    let own = vec![address(key(7))];
    let about_edition = PluginValidationContext {
        self_authorities: &own,
        authority: key(7),
        target_plugin: Some(Plugin::Edition(edition)),
    };
    let about_delegate = PluginValidationContext {
        self_authorities: &own,
        authority: key(7),
        target_plugin: Some(Plugin::Delegate(Delegate { frozen: false })),
    };
    let about_nothing =
        PluginValidationContext { self_authorities: &own, authority: key(7), target_plugin: None };
    let by_stranger = PluginValidationContext {
        self_authorities: &own,
        authority: stranger(),
        target_plugin: Some(Plugin::Edition(edition)),
    };

    assert_eq!(edition.validate_add_plugin(&about_edition), Ok(ValidationResult::Rejected));
    assert_eq!(edition.validate_add_plugin(&about_delegate), Ok(ValidationResult::Pass));
    assert_eq!(edition.validate_add_plugin(&about_nothing), Ok(ValidationResult::Pass));

    assert_eq!(edition.validate_remove_plugin(&about_edition), Ok(ValidationResult::Rejected));
    assert_eq!(edition.validate_remove_plugin(&by_stranger), Ok(ValidationResult::Rejected));
    assert_eq!(edition.validate_remove_plugin(&about_delegate), Ok(ValidationResult::Pass));
    assert_eq!(edition.validate_remove_plugin(&about_nothing), Ok(ValidationResult::Pass));

    assert_eq!(
        edition.validate_revoke_plugin_authority(&about_edition),
        Ok(ValidationResult::Approved)
    );
    assert_eq!(
        edition.validate_revoke_plugin_authority(&by_stranger),
        Ok(ValidationResult::Pass)
    );
    assert_eq!(
        edition.validate_revoke_plugin_authority(&about_delegate),
        Ok(ValidationResult::Pass)
    );
    assert_eq!(
        edition.validate_revoke_plugin_authority(&about_nothing),
        Ok(ValidationResult::Pass)
    );

    assert_eq!(edition.validate(Event::AddPlugin, &about_edition), Ok(ValidationResult::Rejected));
    assert_eq!(edition.validate(Event::Transfer, &about_edition), Ok(ValidationResult::Pass));
    assert_eq!(Edition::default(), Edition { number: 0 });
}

#[test]
fn kinds_vote_on_their_events_only() {
    for event in EVENTS {
        let edition = match event {
            Event::AddPlugin | Event::RemovePlugin => CheckResult::CanReject,
            Event::RevokePluginAuthority => CheckResult::CanApprove,
            _ => CheckResult::NoVote,
        };
        let delegate = match event {
            Event::Transfer | Event::RevokePluginAuthority => CheckResult::CanApprove,
            Event::Burn => CheckResult::CanReject,
            _ => CheckResult::NoVote,
        };
        let royalties = match event {
            Event::UpdatePlugin => CheckResult::CanApprove,
            _ => CheckResult::NoVote,
        };
        assert_eq!(PluginType::Edition.check(event), edition);
        assert_eq!(PluginType::Delegate.check(event), delegate);
        assert_eq!(PluginType::Royalties.check(event), royalties);
    }
}

#[test]
fn plugin_votes_only_on_changes_of_its_own_authorities() {
    let attached = delegate(false, vec![address(key(7))]);
    let own = Some(Plugin::Delegate(Delegate { frozen: false }));
    let other = Some(Plugin::Edition(Edition { number: 1 }));
    assert_eq!(
        vote_of_plugin(&attached, Event::RevokePluginAuthority, &key(7), own),
        ValidationResult::Approved
    );
    assert_eq!(
        vote_of_plugin(&attached, Event::RevokePluginAuthority, &key(7), other),
        ValidationResult::Pass
    );
    assert_eq!(
        vote_of_plugin(&attached, Event::RevokePluginAuthority, &stranger(), own),
        ValidationResult::Pass
    );
    assert_eq!(
        vote_of_plugin(&attached, Event::ApprovePluginAuthority, &key(7), own),
        ValidationResult::Pass
    );
}

#[test]
fn creator_may_rewrite_the_royalties() {
    let royalties = Royalties {
        basis_points: 250,
        creator: key(9),
        percentage: 100,
        enforced: false,
        primary_sale_happened: true,
    };
    let nobody: Option<Parent> = None;
    let asset = asset_with(Some(vec![AttachedPlugin {
        plugin: Plugin::Royalties(royalties),
        authorities: vec![Authority::UpdateAuthority],
    }]));
    let target = Some(Plugin::Royalties(Royalties { basis_points: 300, ..royalties }));
    assert_eq!(
        validate(Event::UpdatePlugin, &asset, &nobody, &key(9), target),
        Decision::Approved
    );
    assert_eq!(
        validate(Event::UpdatePlugin, &asset, &nobody, &owner(), target),
        Decision::Approved
    );
    assert_eq!(
        validate(Event::UpdatePlugin, &asset, &nobody, &stranger(), target),
        Decision::Denied
    );
}

#[test]
fn holder_update_authority_and_address_are_resolved() {
    let nobody: Option<Parent> = None;
    let core = asset_core(UpdateAuthority::Address(updater()));
    assert_eq!(holder(&core), owner());
    assert_eq!(resolve_update_authority(&core, &nobody), Some(updater()));

    assert!(has_authority(&core, &nobody, &owner(), &vec![Authority::Owner]));
    assert!(!has_authority(&core, &nobody, &updater(), &vec![Authority::Owner]));
    assert!(has_authority(&core, &nobody, &updater(), &vec![Authority::UpdateAuthority]));
    assert!(!has_authority(&core, &nobody, &owner(), &vec![Authority::UpdateAuthority]));
    assert!(has_authority(&core, &nobody, &key(7), &vec![address(key(7))]));
    assert!(!has_authority(&core, &nobody, &key(8), &vec![address(key(7))]));
    assert!(has_authority(
        &core,
        &nobody,
        &updater(),
        &vec![Authority::Owner, address(key(7)), Authority::UpdateAuthority]
    ));
    assert!(!has_authority(&core, &nobody, &owner(), &Vec::new()));

    assert_eq!(assert_authority(&core, &nobody, &owner(), &vec![Authority::Owner]), Ok(()));
    assert_eq!(
        assert_authority(&core, &nobody, &stranger(), &vec![Authority::Owner]),
        Err(CoreError::Authority)
    );
}

#[test]
fn update_authority_left_to_the_holder_is_the_holder() {
    let nobody: Option<Parent> = None;
    let core = asset_core(UpdateAuthority::Owner);
    assert_eq!(resolve_update_authority(&core, &nobody), Some(owner()));
    assert!(has_authority(&core, &nobody, &owner(), &vec![Authority::UpdateAuthority]));
}

#[test]
fn update_authority_left_to_the_collection_needs_that_collection() {
    let core = asset_core(UpdateAuthority::Collection(key(50)));
    let nobody: Option<Parent> = None;
    let right = Some(collection_with(None));
    let mut other = collection_with(None);
    other.key = key(60);
    let wrong = Some(other);

    assert_eq!(resolve_update_authority(&core, &right), Some(key(51)));
    assert_eq!(resolve_update_authority(&core, &wrong), None);
    assert_eq!(resolve_update_authority(&core, &nobody), None);

    let required = vec![Authority::UpdateAuthority];
    assert!(has_authority(&core, &right, &key(51), &required));
    assert!(!has_authority(&core, &right, &owner(), &required));
    assert!(!has_authority(&core, &wrong, &key(51), &required));
    assert!(!has_authority(&core, &nobody, &key(51), &required));

    let asset = Entity { core, plugins: None };
    assert_eq!(validate(Event::Update, &asset, &right, &key(51), None), Decision::Approved);
    assert_eq!(validate(Event::Update, &asset, &nobody, &key(51), None), Decision::Denied);
}

#[test]
fn collection_is_held_by_its_update_authority() {
    let collection = collection_with(None);
    let nobody: Option<Parent> = None;
    assert_eq!(holder(&collection.entity.core), key(51));
    assert!(has_authority(&collection.entity.core, &nobody, &key(51), &vec![Authority::Owner]));
    assert!(has_authority(
        &collection.entity.core,
        &nobody,
        &key(51),
        &vec![Authority::UpdateAuthority]
    ));
}

#[test]
fn authority_is_found_in_a_list() {
    let list = vec![Authority::Owner, address(key(7))];
    assert!(contains_authority(&list, &Authority::Owner));
    assert!(contains_authority(&list, &address(key(7))));
    assert!(!contains_authority(&list, &address(key(8))));
    assert!(!contains_authority(&list, &Authority::UpdateAuthority));
    assert!(!contains_authority(&Vec::new(), &Authority::Owner));
}

#[test]
fn kinds_have_their_tags_and_managers() {
    assert_eq!(PluginType::Royalties.tag(), 0);
    assert_eq!(PluginType::Delegate.tag(), 1);
    assert_eq!(PluginType::Edition.tag(), 2);
    assert_eq!(PluginType::from_tag(0), Some(PluginType::Royalties));
    assert_eq!(PluginType::from_tag(1), Some(PluginType::Delegate));
    assert_eq!(PluginType::from_tag(2), Some(PluginType::Edition));
    assert_eq!(PluginType::from_tag(3), None);
    assert_eq!(PluginType::from_tag(255), None);
    assert_eq!(PluginType::Delegate.manager(), Authority::Owner);
    assert_eq!(PluginType::Edition.manager(), Authority::UpdateAuthority);
    assert_eq!(PluginType::Royalties.manager(), Authority::UpdateAuthority);
    assert_eq!(PluginType::of(&Plugin::Edition(Edition { number: 9 })), PluginType::Edition);
    assert_eq!(
        PluginType::from(&Plugin::Delegate(Delegate { frozen: true })),
        PluginType::Delegate
    );
}
