use mpl_core::entity::AttachedPlugin;
use mpl_core::entity::Entity;
use mpl_core::error::CoreError;
use mpl_core::layout::add_plugin;
use mpl_core::layout::fetch_core_data;
use mpl_core::layout::fetch_plugin;
use mpl_core::layout::read;
use mpl_core::layout::remove_plugin;
use mpl_core::layout::replace_tail;
use mpl_core::layout::resize;
use mpl_core::layout::set_authorities;
use mpl_core::layout::shift_region;
use mpl_core::layout::update_core;
use mpl_core::layout::write_plugin;
use mpl_core::plugins::delegate::Delegate;
use mpl_core::plugins::edition::Edition;
use mpl_core::plugins::royalties::Royalties;
use mpl_core::plugins::Plugin;
use mpl_core::plugins::PluginType;
use mpl_core::registry::PluginHeader;
use mpl_core::registry::PluginRegistry;
use mpl_core::registry::RegistryRecord;
use mpl_core::state::Asset;
use mpl_core::state::Authority;
use mpl_core::state::Collection;
use mpl_core::state::Core;
use mpl_core::state::Pubkey;
use mpl_core::state::UpdateAuthority;

fn key(byte: u8) -> Pubkey {
    Pubkey::new_from_array([byte; 32])
}

fn asset(name: &str, uri: &str) -> Core {
    Core::Asset(Asset {
        owner: key(1),
        update_authority: UpdateAuthority::Owner,
        name: String::from(name),
        uri: String::from(uri),
    })
}

fn royalties() -> Plugin {
    Plugin::Royalties(Royalties {
        basis_points: 500,
        creator: key(9),
        percentage: 100,
        enforced: true,
        primary_sale_happened: false,
    })
}

fn delegate(frozen: bool) -> Plugin {
    Plugin::Delegate(Delegate { frozen })
}

fn edition(number: u32) -> Plugin {
    Plugin::Edition(Edition { number })
}

fn attached(plugin: Plugin, authorities: Vec<Authority>) -> AttachedPlugin {
    AttachedPlugin { plugin, authorities }
}

fn two_plugins(name: &str) -> Entity {
    Entity {
        core: asset(name, "xy"),
        plugins: Some(vec![
            attached(delegate(false), vec![Authority::Owner]),
            attached(edition(7), vec![Authority::UpdateAuthority, Authority::Address { address: key(4) }]),
        ]),
    }
}

fn registry_of(buffer: &Vec<u8>) -> (PluginHeader, PluginRegistry) {
    let (_, header, registry) = fetch_core_data(buffer).unwrap();
    (header.unwrap(), registry.unwrap())
}

#[test]
fn asset_without_plugins_is_its_core_header() {
    let entity = Entity { core: asset("abc", "xy"), plugins: None };
    let bytes = entity.serialize().unwrap();
    let mut expected = vec![1u8];
    expected.extend_from_slice(&[1; 32]);
    expected.push(0);
    expected.extend_from_slice(&[3, 0, 0, 0, b'a', b'b', b'c']);
    expected.extend_from_slice(&[2, 0, 0, 0, b'x', b'y']);
    assert_eq!(bytes, expected);
    assert_eq!(entity.core.get_size(), Some(47));
}

#[test]
fn collection_is_written_with_its_key() {
    let entity = Entity {
        core: Core::Collection(Collection {
            update_authority: key(6),
            name: String::from("c"),
            uri: String::new(),
        }),
        plugins: None,
    };
    let bytes = entity.serialize().unwrap();
    let mut expected = vec![5u8];
    expected.extend_from_slice(&[6; 32]);
    expected.extend_from_slice(&[1, 0, 0, 0, b'c', 0, 0, 0, 0]);
    assert_eq!(bytes, expected);
    assert_eq!(entity.core.get_size(), Some(42));
}

#[test]
fn buffer_is_core_then_data_then_header_then_registry() {
    let bytes = two_plugins("abc").serialize().unwrap();
    // core header: 47 bytes; delegate at 47; edition at 49; plugin header at 54
    assert_eq!(&bytes[47..49], &[1, 0]);
    assert_eq!(&bytes[49..54], &[2, 7, 0, 0, 0]);
    assert_eq!(&bytes[54..63], &[3, 63, 0, 0, 0, 0, 0, 0, 0]);
    let mut registry = vec![4u8, 2, 0, 0, 0];
    registry.extend_from_slice(&[1, 47, 0, 0, 0, 0, 0, 0, 0, 1, 0, 0, 0, 1]);
    registry.extend_from_slice(&[2, 49, 0, 0, 0, 0, 0, 0, 0, 2, 0, 0, 0, 2, 3]);
    registry.extend_from_slice(&[4; 32]);
    assert_eq!(&bytes[63..], &registry[..]);
    assert_eq!(bytes.len(), 63 + 5 + 14 + 47);
}

#[test]
fn written_entity_reads_back_and_writes_the_same_bytes() {
    let entity = Entity {
        core: asset("name", "uri"),
        plugins: Some(vec![
            attached(royalties(), vec![Authority::UpdateAuthority]),
            attached(delegate(true), vec![Authority::Address { address: key(3) }]),
            attached(edition(42), vec![Authority::Owner, Authority::UpdateAuthority]),
        ]),
    };
    let bytes = entity.serialize().unwrap();
    let read = Entity::deserialize(&bytes).unwrap();
    assert_eq!(read, entity);
    assert_eq!(read.serialize().unwrap(), bytes);
}

#[test]
fn entity_with_empty_registry_reads_back() {
    let entity = Entity { core: asset("", ""), plugins: Some(Vec::new()) };
    let bytes = entity.serialize().unwrap();
    assert_eq!(bytes.len(), 42 + 9 + 5);
    assert_eq!(Entity::deserialize(&bytes).unwrap(), entity);
}

#[test]
fn header_records_where_the_registry_begins() {
    let bytes = two_plugins("abc").serialize().unwrap();
    let (header, registry) = registry_of(&bytes);
    assert_eq!(header.plugin_registry_offset, 63);
    assert_eq!(PluginRegistry::get(&bytes, 63), Some((registry, bytes.len())));
    assert_eq!(PluginHeader::get(&bytes, 54), Some((header, 63)));
}

#[test]
fn spans_lie_in_the_data_region_and_do_not_overlap() {
    let bytes = two_plugins("abc").serialize().unwrap();
    let (core, header, registry) = fetch_core_data(&bytes).unwrap();
    let core_size = core.get_size().unwrap();
    let header_offset = header.unwrap().plugin_registry_offset - 9;
    let records = registry.unwrap().registry;
    let mut end_of_previous = core_size;
    for record in records.iter() {
        let (plugin, end) = Plugin::get(&bytes, record.offset).unwrap();
        assert_eq!(PluginType::of(&plugin), record.plugin_type);
        assert!(record.offset >= end_of_previous);
        assert!(end <= header_offset);
        end_of_previous = end;
    }
}

#[test]
fn registry_finds_a_plugin_by_its_kind() {
    let bytes = two_plugins("abc").serialize().unwrap();
    let (_, registry) = registry_of(&bytes);
    assert_eq!(registry.position(PluginType::Edition), Some(1));
    assert_eq!(registry.position(PluginType::Royalties), None);
    assert_eq!(
        registry.find(PluginType::Delegate),
        Some((47usize, vec![Authority::Owner]))
    );
    assert_eq!(registry.find(PluginType::Royalties), None);
    assert!(registry.has_unique_kinds());
}

#[test]
fn registry_takes_one_record_of_each_kind_and_keeps_the_order() {
    let record = |plugin_type: PluginType, offset: usize| RegistryRecord {
        plugin_type,
        offset,
        authorities: vec![Authority::Owner],
    };
    let mut registry = PluginRegistry { registry: Vec::new() };
    assert_eq!(registry.insert(record(PluginType::Edition, 50)), Ok(()));
    assert_eq!(registry.insert(record(PluginType::Royalties, 55)), Ok(()));
    assert_eq!(registry.insert(record(PluginType::Delegate, 95)), Ok(()));
    assert_eq!(registry.insert(record(PluginType::Edition, 97)), Err(CoreError::InvalidState));
    assert_eq!(
        registry.registry,
        vec![
            record(PluginType::Edition, 50),
            record(PluginType::Royalties, 55),
            record(PluginType::Delegate, 95)
        ]
    );
    assert_eq!(registry.remove(PluginType::Royalties), Ok(record(PluginType::Royalties, 55)));
    assert_eq!(registry.remove(PluginType::Royalties), Err(CoreError::NotFound));
    assert_eq!(
        registry.registry,
        vec![record(PluginType::Edition, 50), record(PluginType::Delegate, 95)]
    );
}

#[test]
fn registry_with_a_kind_twice_is_noticed() {
    let record = RegistryRecord {
        plugin_type: PluginType::Edition,
        offset: 50,
        authorities: vec![Authority::Owner],
    };
    let registry = PluginRegistry { registry: vec![record.clone(), record] };
    assert!(!registry.has_unique_kinds());
}

#[test]
fn fetch_plugin_gives_authorities_state_and_offset() {
    let bytes = two_plugins("abc").serialize().unwrap();
    assert_eq!(
        fetch_plugin(&bytes, PluginType::Edition),
        Ok((
            vec![Authority::UpdateAuthority, Authority::Address { address: key(4) }],
            edition(7),
            49
        ))
    );
    assert_eq!(fetch_plugin(&bytes, PluginType::Royalties), Err(CoreError::NotFound));
    assert_eq!(fetch_plugin(&vec![1, 2, 3], PluginType::Edition), Err(CoreError::Layout));
}

#[test]
fn adding_a_plugin_of_40_bytes_moves_the_registry_from_200_to_240() {
    // core header 42 + 147 bytes of text, one delegate of 2 bytes: the
    // plugin header sits at 191 and the registry at 200
    let name = "n".repeat(100);
    let uri = "u".repeat(47);
    let entity = Entity {
        core: asset(&name, &uri),
        plugins: Some(vec![attached(delegate(false), vec![Authority::Owner])]),
    };
    let mut buffer = entity.serialize().unwrap();
    let before = buffer.clone();
    let (old_header, old_registry) = registry_of(&before);
    assert_eq!(old_header.plugin_registry_offset, 200);

    add_plugin(&mut buffer, royalties(), vec![Authority::UpdateAuthority]).unwrap();

    let (new_header, new_registry) = registry_of(&buffer);
    assert_eq!(new_header.plugin_registry_offset, 240);
    assert_eq!(new_registry.registry.len(), 2);
    assert_eq!(new_registry.registry[0], old_registry.registry[0]);
    assert_eq!(
        new_registry.registry[1],
        RegistryRecord {
            plugin_type: PluginType::Royalties,
            offset: 191,
            authorities: vec![Authority::UpdateAuthority],
        }
    );
    // the record of the new plugin: tag, offset, count, one authority
    assert_eq!(buffer.len(), before.len() + 40 + 14);
    assert_eq!(&buffer[..191], &before[..191]);
    assert_eq!(fetch_plugin(&buffer, PluginType::Royalties).unwrap().1, royalties());
}

#[test]
fn first_plugin_creates_header_and_registry() {
    let mut buffer = Entity { core: asset("abc", "xy"), plugins: None }.serialize().unwrap();
    add_plugin(&mut buffer, edition(1), vec![Authority::UpdateAuthority]).unwrap();
    let expected = Entity {
        core: asset("abc", "xy"),
        plugins: Some(vec![attached(edition(1), vec![Authority::UpdateAuthority])]),
    };
    assert_eq!(buffer, expected.serialize().unwrap());
    assert_eq!(buffer.len(), 47 + 5 + 9 + 5 + 14);
}

#[test]
fn second_plugin_of_a_kind_is_refused() {
    let mut buffer = two_plugins("abc").serialize().unwrap();
    let before = buffer.clone();
    assert_eq!(
        add_plugin(&mut buffer, edition(8), vec![Authority::Owner]),
        Err(CoreError::InvalidState)
    );
    assert_eq!(buffer, before);
}

#[test]
fn plugin_without_authority_is_refused() {
    let mut buffer = two_plugins("abc").serialize().unwrap();
    let before = buffer.clone();
    assert_eq!(add_plugin(&mut buffer, royalties(), Vec::new()), Err(CoreError::InvalidState));
    assert_eq!(buffer, before);
}

#[test]
fn entity_with_two_plugins_of_a_kind_is_not_written() {
    let entity = Entity {
        core: asset("abc", "xy"),
        plugins: Some(vec![
            attached(edition(1), vec![Authority::Owner]),
            attached(edition(2), vec![Authority::Owner]),
        ]),
    };
    assert_eq!(entity.serialize(), Err(CoreError::InvalidState));
}

#[test]
fn entity_with_an_ungoverned_plugin_is_not_written() {
    let entity = Entity {
        core: asset("abc", "xy"),
        plugins: Some(vec![attached(edition(1), Vec::new())]),
    };
    assert_eq!(entity.serialize(), Err(CoreError::InvalidState));
}

#[test]
fn removing_a_plugin_closes_the_gap() {
    let entity = Entity {
        core: asset("abc", "xy"),
        plugins: Some(vec![
            attached(delegate(true), vec![Authority::Owner]),
            attached(royalties(), vec![Authority::UpdateAuthority]),
            attached(edition(7), vec![Authority::Owner]),
        ]),
    };
    let mut buffer = entity.serialize().unwrap();
    let before = buffer.clone();
    assert_eq!(fetch_plugin(&before, PluginType::Edition).unwrap().2, 89);

    remove_plugin(&mut buffer, PluginType::Royalties).unwrap();

    let expected = Entity {
        core: asset("abc", "xy"),
        plugins: Some(vec![
            attached(delegate(true), vec![Authority::Owner]),
            attached(edition(7), vec![Authority::Owner]),
        ]),
    };
    assert_eq!(buffer, expected.serialize().unwrap());
    assert_eq!(buffer.len(), before.len() - 40 - 14);
    // the delegate stays where it was, the edition moves left by 40
    assert_eq!(fetch_plugin(&buffer, PluginType::Delegate).unwrap().2, 47);
    assert_eq!(fetch_plugin(&buffer, PluginType::Edition).unwrap().2, 49);
    assert_eq!(registry_of(&buffer).0.plugin_registry_offset, 63);
}

#[test]
fn removing_the_last_plugin_keeps_an_empty_registry() {
    let entity = Entity {
        core: asset("abc", "xy"),
        plugins: Some(vec![attached(edition(7), vec![Authority::Owner])]),
    };
    let mut buffer = entity.serialize().unwrap();
    remove_plugin(&mut buffer, PluginType::Edition).unwrap();
    let expected = Entity { core: asset("abc", "xy"), plugins: Some(Vec::new()) };
    assert_eq!(buffer, expected.serialize().unwrap());
}

#[test]
fn removing_a_plugin_that_is_not_attached_is_not_found() {
    let mut buffer = two_plugins("abc").serialize().unwrap();
    let before = buffer.clone();
    assert_eq!(remove_plugin(&mut buffer, PluginType::Royalties), Err(CoreError::NotFound));
    assert_eq!(buffer, before);
    let mut bare = Entity { core: asset("abc", "xy"), plugins: None }.serialize().unwrap();
    assert_eq!(remove_plugin(&mut bare, PluginType::Edition), Err(CoreError::NotFound));
}

#[test]
fn shorter_name_moves_both_plugins_left_by_10() {
    let mut buffer = two_plugins("0123456789abc").serialize().unwrap();
    let before = buffer.clone();
    let (old_header, old_registry) = registry_of(&before);
    assert_eq!(old_header.plugin_registry_offset, 73);

    update_core(&mut buffer, asset("abc", "xy")).unwrap();

    assert_eq!(buffer, two_plugins("abc").serialize().unwrap());
    assert_eq!(buffer.len(), before.len() - 10);
    let (new_header, new_registry) = registry_of(&buffer);
    assert_eq!(new_header.plugin_registry_offset, old_header.plugin_registry_offset - 10);
    for (new, old) in new_registry.registry.iter().zip(old_registry.registry.iter()) {
        assert_eq!(new.offset, old.offset - 10);
        assert_eq!(new.plugin_type, old.plugin_type);
        assert_eq!(new.authorities, old.authorities);
    }
    // each plugin is read on its own at its new offset
    assert_eq!(Plugin::get(&buffer, 47), Some((delegate(false), 49)));
    assert_eq!(Plugin::get(&buffer, 49), Some((edition(7), 54)));
    // the plugin data is the same bytes, ten positions further left
    assert_eq!(&buffer[47..54], &before[57..64]);
}

#[test]
fn longer_name_moves_the_plugins_right() {
    let mut buffer = two_plugins("abc").serialize().unwrap();
    let before = buffer.clone();
    update_core(&mut buffer, asset("abcdefghijklmnopqrstuvwxyz", "xy")).unwrap();
    assert_eq!(buffer, two_plugins("abcdefghijklmnopqrstuvwxyz").serialize().unwrap());
    assert_eq!(buffer.len(), before.len() + 23);
    assert_eq!(registry_of(&buffer).0.plugin_registry_offset, 63 + 23);
    assert_eq!(fetch_plugin(&buffer, PluginType::Edition).unwrap().2, 49 + 23);
    assert_eq!(&buffer[70..77], &before[47..54]);
}

#[test]
fn core_of_an_entity_without_plugins_is_replaced() {
    let mut buffer = Entity { core: asset("abc", "xy"), plugins: None }.serialize().unwrap();
    update_core(&mut buffer, asset("a much longer name", "")).unwrap();
    assert_eq!(
        buffer,
        Entity { core: asset("a much longer name", ""), plugins: None }.serialize().unwrap()
    );
}

#[test]
fn new_authorities_change_only_the_registry() {
    let mut buffer = two_plugins("abc").serialize().unwrap();
    let before = buffer.clone();
    set_authorities(
        &mut buffer,
        PluginType::Delegate,
        vec![Authority::Owner, Authority::Address { address: key(8) }],
    )
    .unwrap();
    assert_eq!(&buffer[..63], &before[..63]);
    assert_eq!(buffer.len(), before.len() + 33);
    assert_eq!(
        fetch_plugin(&buffer, PluginType::Delegate).unwrap().0,
        vec![Authority::Owner, Authority::Address { address: key(8) }]
    );
    assert_eq!(
        fetch_plugin(&buffer, PluginType::Edition),
        fetch_plugin(&before, PluginType::Edition)
    );
}

#[test]
fn authorities_cannot_be_emptied() {
    let mut buffer = two_plugins("abc").serialize().unwrap();
    let before = buffer.clone();
    assert_eq!(
        set_authorities(&mut buffer, PluginType::Delegate, Vec::new()),
        Err(CoreError::InvalidState)
    );
    assert_eq!(
        set_authorities(&mut buffer, PluginType::Royalties, vec![Authority::Owner]),
        Err(CoreError::NotFound)
    );
    assert_eq!(buffer, before);
}

#[test]
fn new_state_is_written_in_place() {
    let mut buffer = two_plugins("abc").serialize().unwrap();
    let before = buffer.clone();
    write_plugin(&mut buffer, edition(0x0a0b_0c0d)).unwrap();
    assert_eq!(buffer.len(), before.len());
    assert_eq!(&buffer[49..54], &[2, 0x0d, 0x0c, 0x0b, 0x0a]);
    assert_eq!(&buffer[..49], &before[..49]);
    assert_eq!(&buffer[54..], &before[54..]);
    assert_eq!(write_plugin(&mut buffer, royalties()), Err(CoreError::NotFound));
}

#[test]
fn buffers_that_hold_no_entity_are_refused() {
    let good = two_plugins("abc").serialize().unwrap();
    assert!(Entity::deserialize(&good).is_ok());

    assert_eq!(Entity::deserialize(&Vec::new()), Err(CoreError::Layout));
    assert_eq!(Entity::deserialize(&vec![9; 60]), Err(CoreError::Layout));

    let mut cut = good.clone();
    cut.pop();
    assert_eq!(Entity::deserialize(&cut), Err(CoreError::Layout));

    let mut longer = good.clone();
    longer.push(0);
    assert_eq!(Entity::deserialize(&longer), Err(CoreError::Layout));

    // a plugin header that points elsewhere
    let mut misdirected = good.clone();
    misdirected[55] = 64;
    assert_eq!(Entity::deserialize(&misdirected), Err(CoreError::Layout));

    // a record that points at the wrong place
    let mut misplaced = good.clone();
    misplaced[69] = 48;
    assert_eq!(Entity::deserialize(&misplaced), Err(CoreError::Layout));

    // a record of the wrong kind
    let mut miskinded = good.clone();
    miskinded[68] = 2;
    assert_eq!(Entity::deserialize(&miskinded), Err(CoreError::Layout));

    // a flag that is neither 0 nor 1
    let mut flagged = good.clone();
    flagged[48] = 2;
    assert_eq!(Entity::deserialize(&flagged), Err(CoreError::Layout));

    let mut buffer = vec![9; 60];
    assert_eq!(add_plugin(&mut buffer, edition(1), vec![Authority::Owner]), Err(CoreError::Layout));
    assert_eq!(buffer, vec![9; 60]);
    assert_eq!(fetch_core_data(&buffer), Err(CoreError::Layout));
}

#[test]
fn record_without_authority_is_refused() {
    let entity = Entity {
        core: asset("abc", "xy"),
        plugins: Some(vec![attached(edition(7), vec![Authority::Owner])]),
    };
    let good = entity.serialize().unwrap();
    // registry at 61: key, count, then tag, offset, count of authorities
    assert_eq!(&good[61..66], &[4, 1, 0, 0, 0]);
    assert_eq!(good[75], 1);
    let mut bad = good[..good.len() - 1].to_vec();
    bad[75] = 0;
    assert_eq!(Entity::deserialize(&bad), Err(CoreError::Layout));
}

#[test]
fn text_that_is_too_long_is_a_layout_error() {
    if usize::BITS < 64 {
        return;
    }
    // the length itself is examined, not the bytes: a name of 2^32 bytes
    // cannot be allocated in a test, so only the boundary below it is run
    let entity = Entity { core: asset(&"x".repeat(70_000), ""), plugins: None };
    let bytes = entity.serialize().unwrap();
    assert_eq!(bytes.len(), 42 + 70_000);
    assert_eq!(&bytes[34..38], &[0x70, 0x11, 0x01, 0x00]);
}

#[test]
fn resize_cuts_and_pads_with_zeros() {
    let mut buffer = vec![1, 2, 3, 4];
    resize(&mut buffer, 2);
    assert_eq!(buffer, vec![1, 2]);
    resize(&mut buffer, 5);
    assert_eq!(buffer, vec![1, 2, 0, 0, 0]);
    resize(&mut buffer, 5);
    assert_eq!(buffer, vec![1, 2, 0, 0, 0]);
    resize(&mut buffer, 0);
    assert_eq!(buffer, Vec::<u8>::new());
}

#[test]
fn read_gives_a_range_or_a_layout_error() {
    let buffer = vec![10, 11, 12, 13, 14];
    assert_eq!(read(&buffer, 1, 3), Ok(vec![11, 12, 13]));
    assert_eq!(read(&buffer, 5, 0), Ok(Vec::new()));
    assert_eq!(read(&buffer, 3, 3), Err(CoreError::Layout));
    assert_eq!(read(&buffer, 6, 0), Err(CoreError::Layout));
    assert_eq!(read(&buffer, usize::MAX, 2), Err(CoreError::Layout));
}

#[test]
fn write_overwrites_a_range_and_nothing_else() {
    let mut buffer = vec![10, 11, 12, 13, 14];
    assert_eq!(mpl_core::layout::write(&mut buffer, 1, &vec![1, 2, 3]), Ok(()));
    assert_eq!(buffer, vec![10, 1, 2, 3, 14]);
    assert_eq!(mpl_core::layout::write(&mut buffer, 5, &Vec::new()), Ok(()));
    assert_eq!(buffer, vec![10, 1, 2, 3, 14]);
    assert_eq!(mpl_core::layout::write(&mut buffer, 3, &vec![7, 7, 7]), Err(CoreError::Layout));
    assert_eq!(mpl_core::layout::write(&mut buffer, usize::MAX, &vec![7]), Err(CoreError::Layout));
    assert_eq!(buffer, vec![10, 1, 2, 3, 14]);
}

#[test]
fn region_is_moved_like_memmove_in_both_directions() {
    let mut buffer = vec![0, 1, 2, 3, 4, 5, 6, 7];
    assert_eq!(shift_region(&mut buffer, 2, 0, 5), Ok(()));
    assert_eq!(buffer, vec![2, 3, 4, 5, 6, 5, 6, 7]);

    let mut buffer = vec![0, 1, 2, 3, 4, 5, 6, 7];
    assert_eq!(shift_region(&mut buffer, 0, 2, 5), Ok(()));
    assert_eq!(buffer, vec![0, 1, 0, 1, 2, 3, 4, 7]);

    assert_eq!(shift_region(&mut buffer, 4, 0, 5), Err(CoreError::Layout));
    assert_eq!(shift_region(&mut buffer, 0, 4, 5), Err(CoreError::Layout));
    assert_eq!(buffer, vec![0, 1, 0, 1, 2, 3, 4, 7]);
}

#[test]
fn tail_is_replaced() {
    let mut buffer = vec![1, 2, 3, 4, 5];
    assert_eq!(replace_tail(&mut buffer, 2, &vec![9, 9, 9, 9]), Ok(()));
    assert_eq!(buffer, vec![1, 2, 9, 9, 9, 9]);
    assert_eq!(replace_tail(&mut buffer, 1, &vec![8]), Ok(()));
    assert_eq!(buffer, vec![1, 8]);
    assert_eq!(replace_tail(&mut buffer, 3, &vec![8]), Err(CoreError::Layout));
    assert_eq!(buffer, vec![1, 8]);
}

#[test]
fn royalties_take_40_bytes() {
    let mut out = Vec::new();
    royalties().put(&mut out);
    assert_eq!(out.len(), 40);
    assert_eq!(royalties().size(), 40);
    assert_eq!(&out[..5], &[0, 0xf4, 0x01, 0, 0]);
    assert_eq!(&out[5..37], &[9; 32]);
    assert_eq!(&out[37..], &[100, 1, 0]);
    assert_eq!(Plugin::get(&out, 0), Some((royalties(), 40)));
    assert_eq!(delegate(true).size(), 2);
    assert_eq!(edition(1).size(), 5);
}

fn assert_layout(buffer: &Vec<u8>) {
    let (core, header, registry) = fetch_core_data(buffer).unwrap();
    let core_size = core.get_size().unwrap();
    let (header, registry) = match (header, registry) {
        (Some(header), Some(registry)) => (header, registry),
        _ => {
            assert_eq!(buffer.len(), core_size);
            return;
        }
    };
    // the plugin header sits right before the registry and points at it
    let header_offset = header.plugin_registry_offset - 9;
    assert_eq!(PluginHeader::get(buffer, header_offset), Some((header, header_offset + 9)));
    let (read, end) = PluginRegistry::get(buffer, header.plugin_registry_offset).unwrap();
    assert_eq!(read, registry);
    assert_eq!(end, buffer.len());
    // every span lies in the plugin data, and no two overlap
    let mut spans: Vec<(usize, usize)> = Vec::new();
    for record in registry.registry.iter() {
        let (plugin, end) = Plugin::get(buffer, record.offset).unwrap();
        assert_eq!(PluginType::of(&plugin), record.plugin_type);
        assert_eq!(end - record.offset, plugin.size());
        assert!(core_size <= record.offset);
        assert!(end <= header_offset);
        for (start, stop) in spans.iter() {
            assert!(end <= *start || *stop <= record.offset);
        }
        spans.push((record.offset, end));
    }
    // and the buffer is what writing the entity anew gives
    assert_eq!(&Entity::deserialize(buffer).unwrap().serialize().unwrap(), buffer);
}

#[test]
fn layout_holds_after_every_operation_of_a_sequence() {
    let mut buffer = Entity { core: asset("abc", "xy"), plugins: None }.serialize().unwrap();
    assert_layout(&buffer);
    add_plugin(&mut buffer, delegate(false), vec![Authority::Owner]).unwrap();
    assert_layout(&buffer);
    add_plugin(&mut buffer, royalties(), vec![Authority::UpdateAuthority]).unwrap();
    assert_layout(&buffer);
    update_core(&mut buffer, asset("a considerably longer name", "and a uri")).unwrap();
    assert_layout(&buffer);
    add_plugin(&mut buffer, edition(3), vec![Authority::Address { address: key(5) }]).unwrap();
    assert_layout(&buffer);
    set_authorities(
        &mut buffer,
        PluginType::Royalties,
        vec![Authority::Owner, Authority::Address { address: key(6) }],
    )
    .unwrap();
    assert_layout(&buffer);
    write_plugin(&mut buffer, delegate(true)).unwrap();
    assert_layout(&buffer);
    remove_plugin(&mut buffer, PluginType::Delegate).unwrap();
    assert_layout(&buffer);
    update_core(&mut buffer, asset("", "")).unwrap();
    assert_layout(&buffer);
    remove_plugin(&mut buffer, PluginType::Edition).unwrap();
    assert_layout(&buffer);
    remove_plugin(&mut buffer, PluginType::Royalties).unwrap();
    assert_layout(&buffer);
    assert_eq!(
        buffer,
        Entity { core: asset("", ""), plugins: Some(Vec::new()) }.serialize().unwrap()
    );
    // failed operations leave the layout alone as well
    assert_eq!(remove_plugin(&mut buffer, PluginType::Edition), Err(CoreError::NotFound));
    assert_layout(&buffer);
}

#[test]
fn entity_measures_its_regions() {
    let entity = two_plugins("abc");
    assert_eq!(entity.measure(), Some((47, 54)));
    assert_eq!(entity.find(PluginType::Edition), Some(1));
    assert_eq!(entity.find(PluginType::Royalties), None);
    let registry = entity.registry(47);
    assert_eq!(registry.registry[0].offset, 47);
    assert_eq!(registry.registry[1].offset, 49);
    let plan = entity.plan().unwrap();
    assert_eq!(plan.core_size, 47);
    assert_eq!(plan.header_offset, 54);
    assert_eq!(plan.registry, registry);
    let bytes = entity.serialize().unwrap();
    assert_eq!(&plan.tail[..], &bytes[54..]);
    assert_eq!(Entity { core: asset("abc", "xy"), plugins: None }.measure(), Some((47, 47)));
}
