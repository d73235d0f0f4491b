//! The mathematical view of a buffer: which entity it holds, and with which
//! plugins attached.
//!
//! A buffer is partitioned, in this order, into the core header, the plugin
//! data region, the plugin header and the plugin registry. A buffer without
//! plugins ends after the core header. The plugin data region holds the
//! encoded plugins back to back, in the order of their records in the
//! registry, so every offset follows from the sizes that come before it.

use crate::codec::lemma_join_at;
use crate::codec::lemma_split_at;
use crate::plugins::lemma_parse_plugin_bytes;
use crate::plugins::lemma_plugin_bytes_parse;
use crate::plugins::lemma_plugin_len;
use crate::plugins::parse_plugin;
use crate::plugins::plugin_bytes;
use crate::plugins::plugin_len;
use crate::plugins::Plugin;
use crate::plugins::PluginType;
use crate::registry::header_bytes;
use crate::registry::kinds_unique;
use crate::registry::lemma_header_bytes_parse;
use crate::registry::lemma_parse_header_bytes;
use crate::registry::lemma_parse_registry_bytes;
use crate::registry::lemma_registry_bytes_parse;
use crate::registry::lemma_registry_len;
use crate::registry::parse_header;
use crate::registry::parse_registry;
use crate::registry::position_of;
use crate::registry::records_fit;
use crate::registry::registry_bytes;
use crate::registry::registry_len;
use crate::registry::authorities_flat;
use crate::registry::lemma_record_len;
use crate::registry::RecordView;
use crate::state::lemma_core_bytes_parse;
use crate::state::lemma_core_head_len;
use crate::state::lemma_parse_core_bytes;
use crate::state::parse_core;
use crate::state::Authority;
use crate::state::CoreView;
use crate::state::KEY_PLUGIN_HEADER;
use vstd::prelude::*;

verus! {

/// A plugin attached to an entity, with the authorities that govern it.
pub struct Attachment {
    pub plugin: Plugin,
    pub authorities: Seq<Authority>,
}

/// An entity with its plugins, oldest attachment first. `plugins` is `None`
/// for an entity that never had a plugin: its buffer has no plugin header
/// and no registry.
pub struct EntityView {
    pub core: CoreView,
    pub plugins: Option<Seq<Attachment>>,
}

/// The plugins of `attachments`, in their order.
pub open spec fn plugins_of(attachments: Seq<Attachment>) -> Seq<Plugin> {
    Seq::new(attachments.len(), |i: int| attachments[i].plugin)
}

/// The plugin data region that holds `plugins`.
pub open spec fn data_bytes(plugins: Seq<Plugin>) -> Seq<u8>
    decreases plugins.len(),
{
    if plugins.len() == 0 {
        Seq::empty()
    } else {
        data_bytes(plugins.drop_last()) + plugin_bytes(plugins.last())
    }
}

/// Number of bytes of the plugin data region that holds `plugins`.
pub open spec fn data_len(plugins: Seq<Plugin>) -> int
    decreases plugins.len(),
{
    if plugins.len() == 0 {
        0
    } else {
        data_len(plugins.drop_last()) + plugin_len(plugins.last())
    }
}

/// The registry of an entity whose core header has `base` bytes: the record
/// of each plugin points at the end of the plugins before it.
pub open spec fn records_of(base: int, attachments: Seq<Attachment>) -> Seq<RecordView> {
    Seq::new(
        attachments.len(),
        |i: int|
            RecordView {
                plugin_type: PluginType::spec_of(attachments[i].plugin),
                offset: base + data_len(plugins_of(attachments).take(i)),
                authorities: attachments[i].authorities,
            },
    )
}

/// No two attachments hold a plugin of one kind.
pub open spec fn kinds_distinct(attachments: Seq<Attachment>) -> bool {
    forall|i: int, j: int|
        0 <= i < j < attachments.len() ==> PluginType::spec_of(
            (#[trigger] attachments[i]).plugin,
        ) != PluginType::spec_of((#[trigger] attachments[j]).plugin)
}

/// Every attachment has at least one authority, and few enough to count in 32 bits.
pub open spec fn authorities_valid(attachments: Seq<Attachment>) -> bool {
    forall|i: int|
        0 <= i < attachments.len() ==> 0 < (#[trigger] attachments[i]).authorities.len()
            <= u32::MAX
}

/// The structural rules of an entity: no two plugins of one kind, and at
/// least one authority for each plugin.
pub open spec fn structure_valid(entity: EntityView) -> bool {
    entity.plugins matches Some(attachments) ==> {
        &&& kinds_distinct(attachments)
        &&& forall|i: int|
            0 <= i < attachments.len() ==> (#[trigger] attachments[i]).authorities.len() > 0
    }
}

impl EntityView {
    /// The attachments of the entity, none for an entity without plugins.
    pub open spec fn attachments(self) -> Seq<Attachment> {
        match self.plugins {
            Some(attachments) => attachments,
            None => Seq::empty(),
        }
    }

    /// The index of the attachment of kind `plugin_type`, if there is one.
    pub open spec fn position(self, plugin_type: PluginType) -> Option<int> {
        position_of(self.records(), plugin_type)
    }

    /// Position of the first byte of the plugin with index `i`.
    pub open spec fn offset_of(self, i: int) -> int {
        self.core.size() + data_len(plugins_of(self.attachments()).take(i))
    }

    /// The entity with one more plugin, attached last.
    pub open spec fn with_plugin(self, plugin: Plugin, authorities: Seq<Authority>) -> EntityView {
        EntityView {
            core: self.core,
            plugins: Some(self.attachments().push(Attachment { plugin, authorities })),
        }
    }

    /// The entity without the plugin with index `i`.
    pub open spec fn without(self, i: int) -> EntityView {
        EntityView { core: self.core, plugins: Some(self.attachments().remove(i)) }
    }

    /// The entity with another core header and the same plugins.
    pub open spec fn with_core(self, core: CoreView) -> EntityView {
        EntityView { core, plugins: self.plugins }
    }

    /// The entity with other authorities for the plugin with index `i`.
    pub open spec fn with_authorities(self, i: int, authorities: Seq<Authority>) -> EntityView {
        EntityView {
            core: self.core,
            plugins: Some(
                self.attachments().update(
                    i,
                    Attachment { plugin: self.attachments()[i].plugin, authorities },
                ),
            ),
        }
    }

    /// The entity with another state for the plugin with index `i`.
    pub open spec fn with_state(self, i: int, plugin: Plugin) -> EntityView {
        EntityView {
            core: self.core,
            plugins: Some(
                self.attachments().update(
                    i,
                    Attachment { plugin, authorities: self.attachments()[i].authorities },
                ),
            ),
        }
    }

    /// Position of the plugin header: the end of the plugin data region.
    pub open spec fn header_offset(self) -> int {
        match self.plugins {
            Some(attachments) => self.core.size() + data_len(plugins_of(attachments)),
            None => self.core.size(),
        }
    }

    /// Position of the registry, which follows the plugin header.
    pub open spec fn registry_offset(self) -> int {
        self.header_offset() + 9
    }

    /// The registry of the entity.
    pub open spec fn records(self) -> Seq<RecordView> {
        match self.plugins {
            Some(attachments) => records_of(self.core.size(), attachments),
            None => Seq::empty(),
        }
    }

    /// Number of bytes of the entity's buffer.
    pub open spec fn size(self) -> int {
        match self.plugins {
            Some(attachments) => self.registry_offset() + registry_len(self.records()),
            None => self.core.size(),
        }
    }

    /// The rules every stored entity obeys: its strings and counts can be
    /// encoded, its buffer fits the machine's word, no two of its plugins are
    /// of one kind, and each plugin has at least one authority.
    pub open spec fn wf(self) -> bool {
        &&& self.core.fits()
        &&& self.size() <= usize::MAX
        &&& self.plugins matches Some(attachments) ==> {
            &&& attachments.len() <= u32::MAX
            &&& authorities_valid(attachments)
            &&& kinds_distinct(attachments)
        }
    }

    /// The first two regions of the buffer: the core header and the plugin data.
    pub open spec fn front(self) -> Seq<u8> {
        self.core.bytes() + data_bytes(plugins_of(self.attachments()))
    }

    /// The last two regions of the buffer of an entity with plugins: the
    /// plugin header and the registry.
    pub open spec fn back(self) -> Seq<u8> {
        header_bytes(self.registry_offset()) + registry_bytes(self.records())
    }

    /// The buffer of the entity.
    pub open spec fn bytes(self) -> Seq<u8> {
        match self.plugins {
            Some(attachments) => self.core.bytes() + data_bytes(plugins_of(attachments))
                + header_bytes(self.registry_offset()) + registry_bytes(self.records()),
            None => self.core.bytes(),
        }
    }
}

/// Reads plugins from `pos` on for as long as a plugin can be read; the
/// second component is the position where reading stopped.
pub open spec fn walk(s: Seq<u8>, pos: int) -> (Seq<Plugin>, int)
    decreases s.len() - pos,
{
    match parse_plugin(s, pos) {
        Some((plugin, end)) => if pos < end <= s.len() {
            let (rest, stop) = walk(s, end);
            (seq![plugin] + rest, stop)
        } else {
            (Seq::empty(), pos)
        },
        None => (Seq::empty(), pos),
    }
}

/// Whether `records` index `plugins` laid out back to back from `base` on.
pub open spec fn records_match(records: Seq<RecordView>, base: int, plugins: Seq<Plugin>) -> bool {
    &&& records.len() == plugins.len()
    &&& kinds_unique(records)
    &&& forall|i: int|
        0 <= i < records.len() ==> {
            &&& (#[trigger] records[i]).plugin_type == PluginType::spec_of(plugins[i])
            &&& records[i].offset == base + data_len(plugins.take(i))
            &&& records[i].authorities.len() > 0
        }
}

/// The attachments that `plugins` and the authorities of `records` make.
pub open spec fn attach(plugins: Seq<Plugin>, records: Seq<RecordView>) -> Seq<Attachment> {
    Seq::new(
        plugins.len(),
        |i: int| Attachment { plugin: plugins[i], authorities: records[i].authorities },
    )
}

/// The entity that a buffer holds, or `None` when the buffer is not the
/// buffer of any entity.
#[verifier::opaque]
pub open spec fn parse_entity(s: Seq<u8>) -> Option<EntityView> {
    if s.len() > usize::MAX {
        None
    } else {
        match parse_core(s, 0) {
            Some((core, core_end)) => if core_end == s.len() {
                Some(EntityView { core, plugins: None })
            } else {
                let (plugins, data_end) = walk(s, core_end);
                match parse_header(s, data_end) {
                    Some((registry_offset, header_end)) => if registry_offset == header_end {
                        match parse_registry(s, header_end) {
                            Some((records, end)) => if end == s.len() && records_match(
                                records,
                                core_end,
                                plugins,
                            ) {
                                Some(EntityView { core, plugins: Some(attach(plugins, records)) })
                            } else {
                                None
                            },
                            None => None,
                        }
                    } else {
                        None
                    },
                    None => None,
                }
            },
            None => None,
        }
    }
}

/// The plugin data region has `data_len` bytes, at least two for each plugin.
pub proof fn lemma_data_len(plugins: Seq<Plugin>)
    ensures
        data_bytes(plugins).len() == data_len(plugins),
        data_len(plugins) >= 2 * plugins.len(),
    decreases plugins.len(),
{
    if plugins.len() > 0 {
        lemma_data_len(plugins.drop_last());
        lemma_plugin_len(plugins.last());
    }
}

/// The data region of two runs of plugins is the two regions joined.
pub proof fn lemma_data_concat(a: Seq<Plugin>, b: Seq<Plugin>)
    ensures
        data_bytes(a + b) == data_bytes(a) + data_bytes(b),
        data_len(a + b) == data_len(a) + data_len(b),
    decreases b.len(),
{
    if b.len() == 0 {
        assert(a + b =~= a);
        assert(data_bytes(a) + data_bytes(b) =~= data_bytes(a));
    } else {
        assert((a + b).drop_last() =~= a + b.drop_last());
        lemma_data_concat(a, b.drop_last());
        assert(data_bytes(a + b) =~= data_bytes(a) + data_bytes(b));
    }
}

/// The data region of a single plugin is its encoding.
pub proof fn lemma_data_single(plugin: Plugin)
    ensures
        data_bytes(seq![plugin]) == plugin_bytes(plugin),
        data_len(seq![plugin]) == plugin_len(plugin),
{
    let single = seq![plugin];
    assert(single.drop_last() =~= Seq::<Plugin>::empty());
    assert(single.last() == plugin);
    assert(data_bytes(single.drop_last()) =~= Seq::<u8>::empty());
    assert(data_len(single.drop_last()) == 0);
    assert(data_bytes(single) =~= plugin_bytes(plugin));
}

/// The data region grows with the number of plugins taken.
pub proof fn lemma_data_len_take(plugins: Seq<Plugin>, i: int)
    requires
        0 <= i < plugins.len(),
    ensures
        data_len(plugins.take(i + 1)) == data_len(plugins.take(i)) + plugin_len(plugins[i]),
        0 <= data_len(plugins.take(i)),
        data_len(plugins.take(i + 1)) <= data_len(plugins),
{
    assert(plugins.take(i + 1).drop_last() =~= plugins.take(i));
    assert(plugins =~= plugins.take(i + 1) + plugins.skip(i + 1));
    lemma_data_concat(plugins.take(i + 1), plugins.skip(i + 1));
    lemma_data_len(plugins.take(i));
    lemma_data_len(plugins.skip(i + 1));
}

/// Walking over a printed data region that is followed by something that is
/// no plugin reads the plugins back and stops at the region's end.
pub proof fn lemma_walk_data(s: Seq<u8>, pos: int, plugins: Seq<Plugin>)
    requires
        0 <= pos,
        pos + data_len(plugins) <= s.len(),
        s.subrange(pos, pos + data_len(plugins)) == data_bytes(plugins),
        parse_plugin(s, pos + data_len(plugins)) is None,
    ensures
        walk(s, pos) == (plugins, pos + data_len(plugins)),
    decreases plugins.len(),
{
    lemma_data_len(plugins);
    if plugins.len() == 0 {
    } else {
        let first = plugins[0];
        let rest = plugins.skip(1);
        assert(plugins =~= seq![first] + rest);
        lemma_data_concat(seq![first], rest);
        lemma_data_single(first);
        lemma_plugin_len(first);
        lemma_data_len(rest);
        lemma_split_at(s, pos, plugin_bytes(first), data_bytes(rest));
        lemma_parse_plugin_bytes(s, pos, first);
        lemma_walk_data(s, pos + plugin_len(first), rest);
    }
}

/// What a walk read is the printed data region of its result, and no plugin
/// can be read where it stopped.
pub proof fn lemma_data_walk(s: Seq<u8>, pos: int)
    requires
        0 <= pos <= s.len(),
    ensures
        ({
            let (plugins, stop) = walk(s, pos);
            &&& pos <= stop <= s.len()
            &&& stop == pos + data_len(plugins)
            &&& s.subrange(pos, stop) == data_bytes(plugins)
            &&& parse_plugin(s, stop) is None
        }),
    decreases s.len() - pos,
{
    match parse_plugin(s, pos) {
        Some((plugin, end)) => {
            lemma_plugin_bytes_parse(s, pos);
            lemma_data_walk(s, end);
            let (rest, stop) = walk(s, end);
            lemma_data_concat(seq![plugin], rest);
            lemma_data_single(plugin);
            lemma_join_at(s, pos, end, stop);
        },
        None => {
            assert(s.subrange(pos, pos) =~= Seq::<u8>::empty());
        },
    }
}

/// The records of a well-formed entity can be encoded, index its plugins,
/// and give its attachments back.
pub proof fn lemma_records_of(entity: EntityView)
    requires
        entity.wf(),
        entity.plugins is Some,
    ensures
        records_fit(entity.records()),
        records_match(
            entity.records(),
            entity.core.size(),
            plugins_of(entity.plugins.unwrap()),
        ),
        attach(plugins_of(entity.plugins.unwrap()), entity.records()) == entity.plugins.unwrap(),
        entity.core.size() <= entity.header_offset() <= entity.size(),
{
    let attachments = entity.plugins.unwrap();
    let plugins = plugins_of(attachments);
    let records = entity.records();
    lemma_core_head_len(entity.core);
    lemma_data_len(plugins);
    lemma_registry_len(records);
    assert forall|i: int| 0 <= i < records.len() implies (#[trigger] records[i]).fits() by {
        lemma_data_len_take(plugins, i);
    }
    assert forall|i: int, j: int| 0 <= i < j < records.len() implies (
    #[trigger] records[i]).plugin_type != (#[trigger] records[j]).plugin_type by {
        assert(PluginType::spec_of(attachments[i].plugin) != PluginType::spec_of(
            attachments[j].plugin,
        ));
    }
    assert(attach(plugins, records) =~= attachments);
}

/// Law of the round trip, first half: the buffer of a well-formed entity,
/// read back, is that entity. So writing an entity, reading it and writing
/// it again gives the same bytes.
pub proof fn lemma_parse_entity_bytes(entity: EntityView)
    requires
        entity.wf(),
    ensures
        parse_entity(entity.bytes()) == Some(entity),
        entity.bytes().len() == entity.size(),
{
    reveal(parse_entity);
    let s = entity.bytes();
    let core = entity.core;
    let c = core.size();
    lemma_core_head_len(core);
    match entity.plugins {
        None => {
            assert(s.subrange(0, c) =~= core.bytes());
            lemma_parse_core_bytes(s, 0, core);
        },
        Some(attachments) => {
            let plugins = plugins_of(attachments);
            let records = entity.records();
            let d = entity.header_offset();
            let h = entity.registry_offset();
            lemma_records_of(entity);
            lemma_data_len(plugins);
            lemma_registry_len(records);
            crate::codec::lemma_int_bytes_len(0, h as u64);
            let c_bytes = core.bytes();
            let d_bytes = data_bytes(plugins);
            let h_bytes = header_bytes(h);
            let r_bytes = registry_bytes(records);
            assert(s.subrange(0, s.len() as int) =~= s);
            lemma_split_at(s, 0, c_bytes + d_bytes + h_bytes, r_bytes);
            lemma_split_at(s, 0, c_bytes + d_bytes, h_bytes);
            lemma_split_at(s, 0, c_bytes, d_bytes);
            lemma_parse_core_bytes(s, 0, core);
            assert(s.subrange(d, d + 9)[0] == s[d]);
            assert(s[d] == KEY_PLUGIN_HEADER);
            crate::plugins::lemma_header_is_no_plugin(s, d);
            lemma_walk_data(s, c, plugins);
            lemma_parse_header_bytes(s, d, h);
            lemma_parse_registry_bytes(s, h, records);
        },
    }
}

/// Law of the round trip, second half: a buffer that reads as an entity is
/// exactly the buffer of that entity, and the entity is well formed.
pub proof fn lemma_entity_bytes_parse(s: Seq<u8>)
    requires
        parse_entity(s) is Some,
    ensures
        parse_entity(s).unwrap().wf(),
        parse_entity(s).unwrap().bytes() == s,
        parse_entity(s).unwrap().size() == s.len(),
{
    reveal(parse_entity);
    let entity = parse_entity(s).unwrap();
    let (core, c) = parse_core(s, 0).unwrap();
    lemma_core_bytes_parse(s, 0);
    lemma_core_head_len(core);
    if c == s.len() {
        assert(s.subrange(0, c) =~= s);
    } else {
        let (plugins, d) = walk(s, c);
        lemma_data_walk(s, c);
        lemma_data_len(plugins);
        let (offset, h) = parse_header(s, d).unwrap();
        lemma_header_bytes_parse(s, d);
        let (records, end) = parse_registry(s, h).unwrap();
        lemma_registry_bytes_parse(s, h);
        lemma_registry_len(records);
        let attachments = attach(plugins, records);
        assert(plugins_of(attachments) =~= plugins);
        assert(records_of(c, attachments) =~= records);
        assert(entity.plugins == Some(attachments));
        assert(entity.header_offset() == d);
        assert(entity.records() == records);
        lemma_join_at(s, 0, c, d);
        lemma_join_at(s, 0, d, h);
        lemma_join_at(s, 0, h, end);
        assert(s.subrange(0, end) =~= s);
        assert forall|i: int, j: int| 0 <= i < j < attachments.len() implies PluginType::spec_of(
            (#[trigger] attachments[i]).plugin,
        ) != PluginType::spec_of((#[trigger] attachments[j]).plugin) by {
            assert(records[i].plugin_type != records[j].plugin_type);
        }
        assert forall|i: int| 0 <= i < attachments.len() implies 0 < (
        #[trigger] attachments[i]).authorities.len() <= u32::MAX by {
            assert(records[i].fits());
        }
    }
}

/// Law of the round trip: writing a well-formed entity, reading the buffer
/// and writing what was read gives the same bytes again.
pub proof fn lemma_round_trip(entity: EntityView)
    requires
        entity.wf(),
    ensures
        parse_entity(entity.bytes()) is Some,
        parse_entity(entity.bytes()).unwrap().bytes() == entity.bytes(),
{
    lemma_parse_entity_bytes(entity);
}

/// Two well-formed entities with the same buffer are the same entity.
pub proof fn lemma_bytes_injective(a: EntityView, b: EntityView)
    requires
        a.wf(),
        b.wf(),
        a.bytes() == b.bytes(),
    ensures
        a == b,
{
    lemma_parse_entity_bytes(a);
    lemma_parse_entity_bytes(b);
}

/// An entity with plugins is well formed as soon as its core header and
/// its records can be encoded, its structure is valid and its buffer fits
/// the machine's word.
pub proof fn lemma_wf_from_parts(entity: EntityView)
    requires
        entity.plugins is Some,
        entity.core.fits(),
        structure_valid(entity),
        records_fit(entity.records()),
        entity.size() <= usize::MAX,
    ensures
        entity.wf(),
{
    let attachments = entity.plugins.unwrap();
    let records = entity.records();
    assert forall|i: int| 0 <= i < attachments.len() implies 0 < (
    #[trigger] attachments[i]).authorities.len() <= u32::MAX by {
        assert(records[i].fits());
    }
}

/// The regions of the buffer of a well-formed entity with plugins: the core
/// header, the plugin data, then the plugin header and the registry.
pub proof fn lemma_regions(entity: EntityView)
    requires
        entity.wf(),
        entity.plugins is Some,
    ensures
        ({
            let s = entity.bytes();
            let c = entity.core.size();
            let d = entity.header_offset();
            &&& 0 < c <= d
            &&& d + 9 + registry_len(entity.records()) == s.len()
            &&& s.len() == entity.size()
            &&& s.subrange(0, c) == entity.core.bytes()
            &&& s.subrange(c, d) == data_bytes(plugins_of(entity.plugins.unwrap()))
            &&& s.subrange(0, d) == entity.core.bytes() + data_bytes(
                plugins_of(entity.plugins.unwrap()),
            )
            &&& s.subrange(d, s.len() as int) == header_bytes(entity.registry_offset())
                + registry_bytes(entity.records())
        }),
{
    let s = entity.bytes();
    let plugins = plugins_of(entity.plugins.unwrap());
    let tail = header_bytes(entity.registry_offset()) + registry_bytes(entity.records());
    lemma_core_head_len(entity.core);
    lemma_data_len(plugins);
    lemma_registry_len(entity.records());
    crate::codec::lemma_int_bytes_len(0, entity.registry_offset() as u64);
    assert(s =~= entity.core.bytes() + data_bytes(plugins) + tail);
    assert(s.subrange(0, s.len() as int) =~= s);
    lemma_split_at(s, 0, entity.core.bytes() + data_bytes(plugins), tail);
    lemma_split_at(s, 0, entity.core.bytes(), data_bytes(plugins));
}

/// Law of the layout, for one plugin: the span of its record lies inside the
/// plugin data region, between the core header and the plugin header, and
/// holds exactly the encoding of the plugin.
pub proof fn lemma_span(entity: EntityView, i: int)
    requires
        entity.wf(),
        entity.plugins is Some,
        0 <= i < entity.attachments().len(),
    ensures
        ({
            let s = entity.bytes();
            let plugins = plugins_of(entity.attachments());
            let start = entity.offset_of(i);
            let end = start + plugin_len(plugins[i]);
            &&& entity.records()[i].offset == start
            &&& entity.core.size() <= start < end <= entity.header_offset()
            &&& s.subrange(start, end) == plugin_bytes(plugins[i])
            &&& s.subrange(0, start) == entity.core.bytes() + data_bytes(plugins.take(i))
            &&& s.subrange(end, entity.header_offset()) == data_bytes(plugins.skip(i + 1))
            &&& data_len(plugins) == data_len(plugins.take(i)) + plugin_len(plugins[i])
                + data_len(plugins.skip(i + 1))
        }),
{
    let s = entity.bytes();
    let c = entity.core.size();
    let d = entity.header_offset();
    let plugins = plugins_of(entity.attachments());
    let before = plugins.take(i);
    let after = plugins.skip(i + 1);
    lemma_regions(entity);
    lemma_plugin_len(plugins[i]);
    lemma_data_len(before);
    lemma_data_len(after);
    lemma_data_single(plugins[i]);
    assert(plugins =~= before + seq![plugins[i]] + after);
    lemma_data_concat(before, seq![plugins[i]]);
    lemma_data_concat(before + seq![plugins[i]], after);
    lemma_split_at(s, c, data_bytes(before) + plugin_bytes(plugins[i]), data_bytes(after));
    lemma_split_at(s, c, data_bytes(before), plugin_bytes(plugins[i]));
    lemma_join_at(s, 0, c, c + data_len(before));
}

/// Law of the layout, for two plugins: their spans do not overlap; the one
/// attached first lies first.
pub proof fn lemma_spans_disjoint(entity: EntityView, i: int, j: int)
    requires
        entity.wf(),
        entity.plugins is Some,
        0 <= i < j < entity.attachments().len(),
    ensures
        entity.offset_of(i) + plugin_len(plugins_of(entity.attachments())[i]) <= entity.offset_of(
            j,
        ),
{
    let plugins = plugins_of(entity.attachments());
    let upto = plugins.take(j);
    assert(upto.take(i + 1) =~= plugins.take(i + 1));
    lemma_data_len_take(upto, i);
    lemma_data_len_take(plugins, i);
}

/// Law of the registry offset: the plugin header of a well-formed entity
/// lies at the end of the plugin data and records the position at which the
/// registry really begins, and the registry read there is the entity's.
pub proof fn lemma_registry_offset(entity: EntityView)
    requires
        entity.wf(),
        entity.plugins is Some,
    ensures
        parse_header(entity.bytes(), entity.header_offset()) == Some(
            (entity.registry_offset(), entity.registry_offset()),
        ),
        parse_registry(entity.bytes(), entity.registry_offset()) == Some(
            (entity.records(), entity.size()),
        ),
{
    let s = entity.bytes();
    let d = entity.header_offset();
    let h = entity.registry_offset();
    lemma_regions(entity);
    lemma_records_of(entity);
    lemma_registry_len(entity.records());
    crate::codec::lemma_int_bytes_len(0, h as u64);
    lemma_split_at(s, d, header_bytes(h), registry_bytes(entity.records()));
    lemma_parse_header_bytes(s, d, h);
    lemma_parse_registry_bytes(s, h, entity.records());
}

/// The buffer of an entity with plugins is its front followed by its back.
pub proof fn lemma_front_back(entity: EntityView)
    requires
        entity.plugins is Some,
    ensures
        entity.bytes() == entity.front() + entity.back(),
        entity.front().len() == entity.header_offset(),
        entity.back().len() == 9 + registry_len(entity.records()),
        entity.size() == entity.front().len() + entity.back().len(),
        entity.core.size() <= entity.header_offset(),
{
    lemma_core_head_len(entity.core);
    lemma_data_len(plugins_of(entity.attachments()));
    lemma_registry_len(entity.records());
    crate::codec::lemma_int_bytes_len(0, entity.registry_offset() as u64);
    assert(entity.bytes() =~= entity.front() + entity.back());
}

/// The front of a well-formed entity is the start of its buffer.
pub proof fn lemma_front(entity: EntityView)
    requires
        entity.wf(),
    ensures
        entity.front().len() == entity.header_offset(),
        entity.header_offset() <= entity.bytes().len(),
        entity.bytes().len() == entity.size(),
        entity.bytes().subrange(0, entity.header_offset()) == entity.front(),
        entity.plugins is None ==> entity.front() == entity.bytes(),
{
    lemma_core_head_len(entity.core);
    if entity.plugins is Some {
        lemma_regions(entity);
    } else {
        assert(plugins_of(entity.attachments()) =~= Seq::<Plugin>::empty());
        assert(entity.front() =~= entity.bytes());
        assert(entity.bytes().subrange(0, entity.header_offset()) =~= entity.bytes());
    }
}

/// A buffer made of the front and the back of an entity whose parts can be
/// encoded is the buffer of that entity, and the entity is well formed.
pub proof fn lemma_commit(entity: EntityView, s: Seq<u8>)
    requires
        entity.plugins is Some,
        entity.core.fits(),
        structure_valid(entity),
        records_fit(entity.records()),
        s == entity.front() + entity.back(),
        s.len() <= usize::MAX,
    ensures
        entity.wf(),
        s == entity.bytes(),
        parse_entity(s) == Some(entity),
{
    lemma_front_back(entity);
    lemma_wf_from_parts(entity);
    lemma_parse_entity_bytes(entity);
}

/// What well-formedness says of the parts of an entity with plugins.
pub proof fn lemma_parts_from_wf(entity: EntityView)
    requires
        entity.wf(),
        entity.plugins is Some,
    ensures
        entity.core.fits(),
        structure_valid(entity),
        records_fit(entity.records()),
        entity.registry_offset() <= usize::MAX,
        entity.front().len() + entity.back().len() <= usize::MAX,
{
    lemma_records_of(entity);
    lemma_front_back(entity);
    lemma_registry_len(entity.records());
}

/// Number of bytes of the record of an attachment: a tag, an offset, a
/// count, and the authorities.
pub open spec fn record_size(attachment: Attachment) -> int {
    13 + authorities_flat(attachment.authorities).len() as int
}

/// Number of bytes of the records of `attachments`.
pub open spec fn records_size(attachments: Seq<Attachment>) -> int
    decreases attachments.len(),
{
    if attachments.len() == 0 {
        0
    } else {
        records_size(attachments.drop_last()) + record_size(attachments.last())
    }
}

/// The registry of an entity has five bytes and the bytes of its records,
/// wherever the plugins lie.
pub proof fn lemma_registry_size(base: int, attachments: Seq<Attachment>)
    ensures
        registry_len(records_of(base, attachments)) == 5 + records_size(attachments),
        records_size(attachments) >= 0,
    decreases attachments.len(),
{
    let records = records_of(base, attachments);
    if attachments.len() == 0 {
        assert(records =~= Seq::<RecordView>::empty());
    } else {
        let front = attachments.drop_last();
        lemma_registry_size(base, front);
        assert(records.drop_last() =~= records_of(base, front)) by {
            assert forall|i: int| 0 <= i < front.len() implies records[i] == records_of(
                base,
                front,
            )[i] by {
                assert(plugins_of(attachments).take(i) =~= plugins_of(front).take(i));
            }
        }
        lemma_record_len(records.last());
    }
}

/// The records of two runs of attachments take the room of both.
pub proof fn lemma_records_size_concat(a: Seq<Attachment>, b: Seq<Attachment>)
    ensures
        records_size(a + b) == records_size(a) + records_size(b),
    decreases b.len(),
{
    if b.len() == 0 {
        assert(a + b =~= a);
    } else {
        assert((a + b).drop_last() =~= a + b.drop_last());
        lemma_records_size_concat(a, b.drop_last());
    }
}

/// The records of a single attachment.
pub proof fn lemma_records_size_single(attachment: Attachment)
    ensures
        records_size(seq![attachment]) == record_size(attachment),
{
    let single = seq![attachment];
    assert(single.drop_last() =~= Seq::<Attachment>::empty());
    assert(records_size(single.drop_last()) == 0);
}

/// Law of removal: an entity without one of its plugins is still well
/// formed; its buffer is shorter by the span of the plugin and by its
/// record; the plugins before the removed one keep their offsets, and the
/// offsets of the plugins after it decrease by the length of the span.
pub proof fn lemma_without_wf(entity: EntityView, i: int)
    requires
        entity.wf(),
        entity.plugins is Some,
        0 <= i < entity.attachments().len(),
    ensures
        entity.without(i).wf(),
        entity.without(i).size() == entity.size() - plugin_len(entity.attachments()[i].plugin)
            - record_size(entity.attachments()[i]),
        entity.without(i).registry_offset() == entity.registry_offset() - plugin_len(
            entity.attachments()[i].plugin,
        ),
        forall|j: int|
            0 <= j < i ==> (#[trigger] entity.without(i).records()[j]).offset
                == entity.records()[j].offset,
        forall|j: int|
            i <= j < entity.attachments().len() - 1 ==> (#[trigger] entity.without(
                i,
            ).records()[j]).offset == entity.records()[j + 1].offset - plugin_len(
                entity.attachments()[i].plugin,
            ),
{
    let after = entity.without(i);
    let old_list = entity.attachments();
    let new_list = after.attachments();
    let plugins = plugins_of(old_list);
    let new_plugins = plugins_of(new_list);
    let removed = old_list[i];
    lemma_records_of(entity);
    lemma_core_head_len(entity.core);
    lemma_plugin_len(removed.plugin);
    // the structure
    assert forall|a: int, b: int| 0 <= a < b < new_list.len() implies PluginType::spec_of(
        (#[trigger] new_list[a]).plugin,
    ) != PluginType::spec_of((#[trigger] new_list[b]).plugin) by {
        let a0 = if a < i { a } else { a + 1 };
        let b0 = if b < i { b } else { b + 1 };
        assert(new_list[a] == old_list[a0] && new_list[b] == old_list[b0]);
    }
    assert forall|a: int| 0 <= a < new_list.len() implies 0 < (
    #[trigger] new_list[a]).authorities.len() <= u32::MAX by {
        let a0 = if a < i { a } else { a + 1 };
        assert(new_list[a] == old_list[a0]);
    }
    // the plugin data
    assert(new_plugins =~= plugins.take(i) + plugins.skip(i + 1));
    assert(plugins =~= plugins.take(i) + seq![removed.plugin] + plugins.skip(i + 1));
    lemma_data_concat(plugins.take(i), plugins.skip(i + 1));
    lemma_data_concat(plugins.take(i), seq![removed.plugin]);
    lemma_data_concat(plugins.take(i) + seq![removed.plugin], plugins.skip(i + 1));
    lemma_data_single(removed.plugin);
    // the registry
    assert(new_list =~= old_list.take(i) + old_list.skip(i + 1));
    assert(old_list =~= old_list.take(i) + seq![removed] + old_list.skip(i + 1));
    lemma_records_size_concat(old_list.take(i), old_list.skip(i + 1));
    lemma_records_size_concat(old_list.take(i), seq![removed]);
    lemma_records_size_concat(old_list.take(i) + seq![removed], old_list.skip(i + 1));
    lemma_records_size_single(removed);
    lemma_registry_size(entity.core.size(), old_list);
    lemma_registry_size(entity.core.size(), new_list);
    // the offsets
    assert forall|j: int| 0 <= j < i implies (#[trigger] after.records()[j]).offset
        == entity.records()[j].offset by {
        assert(new_plugins.take(j) =~= plugins.take(j));
    }
    assert forall|j: int| i <= j < old_list.len() - 1 implies (
    #[trigger] after.records()[j]).offset == entity.records()[j + 1].offset - plugin_len(
        removed.plugin,
    ) by {
        assert(new_plugins.take(j) =~= plugins.take(i) + plugins.subrange(i + 1, j + 1));
        assert(plugins.take(j + 1) =~= plugins.take(i) + seq![removed.plugin] + plugins.subrange(
            i + 1,
            j + 1,
        ));
        lemma_data_concat(plugins.take(i), plugins.subrange(i + 1, j + 1));
        lemma_data_concat(plugins.take(i), seq![removed.plugin]);
        lemma_data_concat(plugins.take(i) + seq![removed.plugin], plugins.subrange(i + 1, j + 1));
    }
}

/// Law of attachment: with one more plugin the registry moves forward by
/// the length of the plugin, every record that was there stays as it was,
/// the record of the new plugin points at the old end of the plugin data,
/// and the buffer grows by the plugin and by its record.
pub proof fn lemma_with_plugin_layout(
    entity: EntityView,
    plugin: Plugin,
    authorities: Seq<Authority>,
)
    requires
        entity.plugins is Some,
    ensures
        ({
            let after = entity.with_plugin(plugin, authorities);
            let n = entity.attachments().len() as int;
            &&& after.registry_offset() == entity.registry_offset() + plugin_len(plugin)
            &&& after.records().len() == n + 1
            &&& after.records().take(n) == entity.records()
            &&& after.records()[n].offset == entity.header_offset()
            &&& after.size() == entity.size() + plugin_len(plugin) + record_size(
                Attachment { plugin, authorities },
            )
        }),
{
    let after = entity.with_plugin(plugin, authorities);
    let old_list = entity.attachments();
    let new_list = after.attachments();
    let added = Attachment { plugin, authorities };
    let n = old_list.len() as int;
    assert(new_list =~= old_list + seq![added]);
    assert(plugins_of(new_list) =~= plugins_of(old_list) + seq![plugin]);
    lemma_data_concat(plugins_of(old_list), seq![plugin]);
    lemma_data_single(plugin);
    lemma_records_size_concat(old_list, seq![added]);
    lemma_records_size_single(added);
    lemma_registry_size(entity.core.size(), old_list);
    lemma_registry_size(entity.core.size(), new_list);
    assert(plugins_of(new_list).take(n) =~= plugins_of(old_list));
    assert(after.records().take(n) =~= entity.records()) by {
        assert forall|j: int| 0 <= j < n implies after.records()[j] == entity.records()[j] by {
            assert(plugins_of(new_list).take(j) =~= plugins_of(old_list).take(j));
        }
    }
}

/// Law of the layout, on buffers: in every buffer that holds an entity,
/// the span of each plugin lies between the end of the core header and the
/// plugin header, holds exactly that plugin, and ends before the span of
/// the next plugin begins.
pub proof fn lemma_buffer_spans(s: Seq<u8>, i: int, j: int)
    requires
        parse_entity(s) is Some,
        0 <= i < j < parse_entity(s).unwrap().attachments().len(),
    ensures
        ({
            let entity = parse_entity(s).unwrap();
            let first = entity.records()[i];
            let second = entity.records()[j];
            let first_end = first.offset + plugin_len(entity.attachments()[i].plugin);
            let second_end = second.offset + plugin_len(entity.attachments()[j].plugin);
            &&& entity.core.size() <= first.offset < first_end <= second.offset
            &&& second.offset < second_end <= entity.header_offset()
            &&& parse_plugin(s, first.offset) == Some((entity.attachments()[i].plugin, first_end))
            &&& parse_plugin(s, second.offset) == Some(
                (entity.attachments()[j].plugin, second_end),
            )
        }),
{
    let entity = parse_entity(s).unwrap();
    lemma_entity_bytes_parse(s);
    lemma_span(entity, i);
    lemma_span(entity, j);
    lemma_spans_disjoint(entity, i, j);
    lemma_front(entity);
    lemma_parse_plugin_bytes(s, entity.offset_of(i), entity.attachments()[i].plugin);
    lemma_parse_plugin_bytes(s, entity.offset_of(j), entity.attachments()[j].plugin);
}

/// Law of the registry offset, on buffers: in every buffer that holds an
/// entity with plugins, the plugin header lies right after the plugin data,
/// the offset it records is the position right after the header, and the
/// registry that begins there reaches the end of the buffer.
pub proof fn lemma_buffer_registry_offset(s: Seq<u8>)
    requires
        parse_entity(s) is Some,
        parse_entity(s).unwrap().plugins is Some,
    ensures
        ({
            let entity = parse_entity(s).unwrap();
            &&& parse_header(s, entity.header_offset()) == Some(
                (entity.header_offset() + 9, entity.header_offset() + 9),
            )
            &&& parse_registry(s, entity.header_offset() + 9) == Some(
                (entity.records(), s.len() as int),
            )
        }),
{
    lemma_entity_bytes_parse(s);
    lemma_registry_offset(parse_entity(s).unwrap());
}

} // verus!
