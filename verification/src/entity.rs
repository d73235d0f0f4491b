//! An entity in memory, and the two directions between it and its buffer.

use crate::error::CoreError;
use crate::model::attach;
use crate::model::data_bytes;
use crate::model::lemma_commit;
use crate::model::lemma_parts_from_wf;
use crate::model::data_len;
use crate::model::kinds_distinct;
use crate::model::lemma_data_concat;
use crate::model::lemma_data_len;
use crate::model::lemma_data_len_take;
use crate::model::lemma_data_single;
use crate::model::lemma_entity_bytes_parse;
use crate::model::lemma_parse_entity_bytes;
use crate::model::parse_entity;
use crate::model::plugins_of;
use crate::model::records_match;
use crate::model::records_of;
use crate::model::structure_valid;
use crate::model::walk;
use crate::model::Attachment;
use crate::model::EntityView;
use crate::plugins::Plugin;
use crate::plugins::PluginType;
use crate::registry::copy_authorities;
use crate::registry::header_bytes;
use crate::registry::lemma_position_of;
use crate::registry::registry_bytes;
use crate::registry::lemma_records_view_push;
use crate::registry::parse_header;
use crate::registry::parse_registry;
use crate::state::parse_core;
use crate::registry::records_fit;
use crate::registry::records_view;
use crate::registry::PluginHeader;
use crate::registry::PluginRegistry;
use crate::registry::RegistryRecord;
use crate::state::lemma_core_head_len;
use crate::state::Authority;
use crate::state::Core;
use vstd::prelude::*;

verus! {

/// A plugin attached to an entity, with the authorities that govern it.
#[derive(Clone, Debug, PartialEq, Eq)]
pub struct AttachedPlugin {
    pub plugin: Plugin,
    pub authorities: Vec<Authority>,
}

impl View for AttachedPlugin {
    type V = Attachment;

    open spec fn view(&self) -> Attachment {
        Attachment { plugin: self.plugin, authorities: self.authorities@ }
    }
}

/// The mathematical value of a vector of attached plugins.
pub open spec fn attachments_view(plugins: Seq<AttachedPlugin>) -> Seq<Attachment> {
    Seq::new(plugins.len(), |i: int| plugins[i]@)
}

/// The value of a vector with one more plugin is the value with one more attachment.
pub proof fn lemma_attachments_view_push(plugins: Seq<AttachedPlugin>, plugin: AttachedPlugin)
    ensures
        attachments_view(plugins.push(plugin)) == attachments_view(plugins).push(plugin@),
{
    assert(attachments_view(plugins.push(plugin)) =~= attachments_view(plugins).push(plugin@));
}

/// An entity with its plugins, oldest attachment first. `plugins` is `None`
/// for an entity that never had a plugin.
#[derive(Clone, Debug, PartialEq, Eq)]
pub struct Entity {
    pub core: Core,
    pub plugins: Option<Vec<AttachedPlugin>>,
}

impl View for Entity {
    type V = EntityView;

    open spec fn view(&self) -> EntityView {
        EntityView {
            core: self.core@,
            plugins: match self.plugins {
                Some(plugins) => Some(attachments_view(plugins@)),
                None => None,
            },
        }
    }
}

/// What writing an entity gives: its buffer, or the reason why it has none.
pub open spec fn serialize_outcome(entity: EntityView) -> Result<Seq<u8>, CoreError> {
    if !structure_valid(entity) {
        Err(CoreError::InvalidState)
    } else if !entity.wf() {
        Err(CoreError::Layout)
    } else {
        Ok(entity.bytes())
    }
}

/// Whether each plugin has at least one authority.
fn all_governed(plugins: &Vec<AttachedPlugin>) -> (r: bool)
    ensures
        r == (forall|i: int|
            0 <= i < plugins@.len() ==> (#[trigger] attachments_view(
                plugins@,
            )[i]).authorities.len() > 0),
{
    let mut i: usize = 0;
    while i < plugins.len()
        invariant
            i <= plugins.len(),
            forall|j: int|
                0 <= j < i ==> (#[trigger] attachments_view(plugins@)[j]).authorities.len() > 0,
        decreases plugins.len() - i,
    {
        if plugins[i].authorities.len() == 0 {
            assert(attachments_view(plugins@)[i as int].authorities.len() == 0);
            return false;
        }
        i += 1;
    }
    true
}

impl Entity {
    /// Writes the entity into a fresh buffer. Fails with `InvalidState` when
    /// two plugins are of one kind or a plugin has no authority, and with
    /// `Layout` when a string, a count or the whole buffer is too large.
    pub fn serialize(&self) -> (r: Result<Vec<u8>, CoreError>)
        ensures
            match serialize_outcome(self@) {
                Ok(bytes) => r is Ok && r.unwrap()@ == bytes && parse_entity(bytes) == Some(self@),
                Err(error) => r == Err::<Vec<u8>, CoreError>(error),
            },
    {
        let mut out: Vec<u8> = Vec::new();
        match &self.plugins {
            None => {
                if !self.core.put(&mut out) {
                    return Err(CoreError::Layout);
                }
                proof {
                    lemma_core_head_len(self@.core);
                    assert(out@ =~= self@.bytes());
                    assert(self@.size() == out.len());
                    lemma_parse_entity_bytes(self@);
                }
                Ok(out)
            },
            Some(plugins) => {
                if !all_governed(plugins) || !all_distinct(plugins) {
                    return Err(CoreError::InvalidState);
                }
                proof {
                    if self@.wf() {
                        lemma_parts_from_wf(self@);
                    }
                }
                if !self.core.put(&mut out) {
                    return Err(CoreError::Layout);
                }
                let ghost kinds = plugins_of(self@.attachments());
                let mut i: usize = 0;
                while i < plugins.len()
                    invariant
                        i <= plugins.len(),
                        kinds == plugins_of(attachments_view(plugins@)),
                        out@ == self@.core.bytes() + data_bytes(kinds.take(i as int)),
                    decreases plugins.len() - i,
                {
                    proof {
                        lemma_data_concat(kinds.take(i as int), seq![kinds[i as int]]);
                        lemma_data_single(kinds[i as int]);
                        assert(kinds.take(i as int) + seq![kinds[i as int]] =~= kinds.take(i + 1));
                    }
                    plugins[i].plugin.put(&mut out);
                    proof {
                        assert(out@ =~= self@.core.bytes() + data_bytes(kinds.take(i + 1)));
                    }
                    i += 1;
                }
                assert(kinds.take(plugins@.len() as int) =~= kinds);
                let plan = match self.plan() {
                    Some(plan) => plan,
                    None => { return Err(CoreError::Layout); },
                };
                let mut tail = plan.tail;
                out.append(&mut tail);
                proof {
                    assert(out.len() <= usize::MAX);
                    lemma_commit(self@, out@);
                }
                Ok(out)
            },
        }
    }

    /// Reads the entity that `buffer` holds, or fails with `Layout` when the
    /// buffer is not the buffer of any entity.
    pub fn deserialize(buffer: &Vec<u8>) -> (r: Result<Entity, CoreError>)
        ensures
            match r {
                Ok(entity) => parse_entity(buffer@) == Some(entity@) && entity@.wf()
                    && entity@.bytes() == buffer@,
                Err(error) => error == CoreError::Layout && parse_entity(buffer@) is None,
            },
    {
        proof {
            reveal(parse_entity);
        }
        let (core, core_end) = match Core::get(buffer, 0) {
            Some(pair) => pair,
            None => { return Err(CoreError::Layout); },
        };
        proof {
            crate::state::lemma_core_bytes_parse(buffer@, 0);
        }
        if core_end == buffer.len() {
            let entity = Entity { core, plugins: None };
            proof {
                lemma_entity_bytes_parse(buffer@);
            }
            return Ok(entity);
        }
        let mut plugins: Vec<Plugin> = Vec::new();
        let mut at: usize = core_end;
        loop
            invariant
                core_end <= at <= buffer.len(),
                walk(buffer@, core_end as int).0 == plugins@ + walk(buffer@, at as int).0,
                walk(buffer@, core_end as int).1 == walk(buffer@, at as int).1,
                at == core_end + data_len(plugins@),
            ensures
                core_end <= at <= buffer.len(),
                walk(buffer@, core_end as int) == (plugins@, at as int),
                at == core_end + data_len(plugins@),
            decreases buffer.len() - at,
        {
            match Plugin::get(buffer, at) {
                Some((plugin, end)) => {
                    proof {
                        crate::plugins::lemma_plugin_bytes_parse(buffer@, at as int);
                        let (rest, stop) = walk(buffer@, end as int);
                        assert(plugins@ + (seq![plugin] + rest) =~= plugins@.push(plugin) + rest);
                        assert(plugins@.push(plugin).drop_last() =~= plugins@);
                    }
                    plugins.push(plugin);
                    at = end;
                },
                None => {
                    proof {
                        assert(plugins@ + Seq::<Plugin>::empty() =~= plugins@);
                    }
                    break ;
                },
            }
        }
        let (header, header_end) = match PluginHeader::get(buffer, at) {
            Some(pair) => pair,
            None => { return Err(CoreError::Layout); },
        };
        if header.plugin_registry_offset != header_end {
            return Err(CoreError::Layout);
        }
        let (registry, end) = match PluginRegistry::get(buffer, header_end) {
            Some(pair) => pair,
            None => { return Err(CoreError::Layout); },
        };
        if end != buffer.len() || registry.registry.len() != plugins.len()
            || !registry.has_unique_kinds() {
            return Err(CoreError::Layout);
        }
        let mut attached: Vec<AttachedPlugin> = Vec::new();
        let mut offset: usize = core_end;
        let mut i: usize = 0;
        while i < plugins.len()
            invariant
                i <= plugins.len(),
                registry.registry.len() == plugins.len(),
                buffer@.len() <= usize::MAX,
                parse_core(buffer@, 0) == Some((core@, core_end as int)),
                core_end != buffer@.len(),
                walk(buffer@, core_end as int) == (plugins@, at as int),
                parse_header(buffer@, at as int) == Some((header_end as int, header_end as int)),
                parse_registry(buffer@, header_end as int) == Some(
                    (registry@, buffer@.len() as int),
                ),
                core_end <= at <= buffer.len(),
                at == core_end + data_len(plugins@),
                offset == core_end + data_len(plugins@.take(i as int)),
                attachments_view(attached@) == attach(plugins@, registry@).take(i as int),
                forall|j: int|
                    0 <= j < i ==> {
                        &&& (#[trigger] registry@[j]).plugin_type == PluginType::spec_of(plugins@[j])
                        &&& registry@[j].offset == core_end + data_len(plugins@.take(j))
                        &&& registry@[j].authorities.len() > 0
                    },
            decreases plugins.len() - i,
        {
            let record = &registry.registry[i];
            proof {
                lemma_data_len_take(plugins@, i as int);
                assert(registry@[i as int] == record@);
            }
            if record.plugin_type != PluginType::of(&plugins[i]) || record.offset != offset
                || record.authorities.len() == 0 {
                proof {
                    reveal(parse_entity);
                    assert(!records_match(registry@, core_end as int, plugins@));
                }
                return Err(CoreError::Layout);
            }
            let entry = AttachedPlugin {
                plugin: plugins[i],
                authorities: copy_authorities(&record.authorities),
            };
            proof {
                let all = attach(plugins@, registry@);
                assert(entry@ == all[i as int]);
                lemma_attachments_view_push(attached@, entry);
                assert(all.take(i as int).push(all[i as int]) =~= all.take(i + 1));
            }
            attached.push(entry);
            offset = offset + plugins[i].size();
            i += 1;
        }
        let entity = Entity { core, plugins: Some(attached) };
        proof {
            reveal(parse_entity);
            assert(attach(plugins@, registry@).take(plugins@.len() as int) =~= attach(
                plugins@,
                registry@,
            ));
            assert(records_match(registry@, core_end as int, plugins@));
            lemma_entity_bytes_parse(buffer@);
        }
        Ok(entity)
    }
}

/// Whether no two plugins are of one kind.
fn all_distinct(plugins: &Vec<AttachedPlugin>) -> (r: bool)
    ensures
        r == kinds_distinct(attachments_view(plugins@)),
{
    let ghost list = attachments_view(plugins@);
    let mut j: usize = 0;
    while j < plugins.len()
        invariant
            j <= plugins.len(),
            list == attachments_view(plugins@),
            forall|a: int, b: int|
                0 <= a < b < j ==> PluginType::spec_of((#[trigger] list[a]).plugin)
                    != PluginType::spec_of((#[trigger] list[b]).plugin),
        decreases plugins.len() - j,
    {
        let mut i: usize = 0;
        while i < j
            invariant
                i <= j < plugins.len(),
                list == attachments_view(plugins@),
                forall|a: int|
                    0 <= a < i ==> PluginType::spec_of((#[trigger] list[a]).plugin)
                        != PluginType::spec_of(list[j as int].plugin),
            decreases j - i,
        {
            if PluginType::of(&plugins[i].plugin) == PluginType::of(&plugins[j].plugin) {
                assert(PluginType::spec_of(list[i as int].plugin) == PluginType::spec_of(
                    list[j as int].plugin,
                ));
                return false;
            }
            i += 1;
        }
        j += 1;
    }
    true
}

/// Where the regions of an entity's buffer lie, and what follows the plugin
/// data: the encoded plugin header and registry.
pub struct Plan {
    /// Number of bytes of the core header; the plugin data begins here.
    pub core_size: usize,
    /// Position of the plugin header; the plugin data ends here.
    pub header_offset: usize,
    /// The registry, with the offset of every plugin.
    pub registry: PluginRegistry,
    /// The encoded plugin header followed by the encoded registry.
    pub tail: Vec<u8>,
}

impl Entity {
    /// The sizes of the first two regions: the number of bytes of the core
    /// header and the position at which the plugin data ends. `None` when
    /// that position does not fit the machine's word.
    pub fn measure(&self) -> (r: Option<(usize, usize)>)
        ensures
            match r {
                Some((core_size, header_offset)) => core_size == self@.core.size()
                    && header_offset == self@.header_offset(),
                None => self@.header_offset() > usize::MAX,
            },
    {
        let ghost kinds = plugins_of(self@.attachments());
        proof {
            lemma_data_len(kinds);
        }
        let core_size = match self.core.get_size() {
            Some(n) => n,
            None => { return None; },
        };
        match &self.plugins {
            None => Some((core_size, core_size)),
            Some(plugins) => {
                let mut offset: usize = core_size;
                let mut i: usize = 0;
                while i < plugins.len()
                    invariant
                        i <= plugins.len(),
                        kinds == plugins_of(attachments_view(plugins@)),
                        self@.header_offset() == core_size + data_len(kinds),
                        offset == core_size + data_len(kinds.take(i as int)),
                    decreases plugins.len() - i,
                {
                    proof {
                        lemma_data_len_take(kinds, i as int);
                        assert(kinds[i as int] == plugins@[i as int].plugin);
                    }
                    offset = match offset.checked_add(plugins[i].plugin.size()) {
                        Some(n) => n,
                        None => { return None; },
                    };
                    i += 1;
                }
                proof {
                    assert(kinds.take(plugins@.len() as int) =~= kinds);
                }
                Some((core_size, offset))
            },
        }
    }

    /// The registry of the entity: one record for each plugin, each with the
    /// offset that the sizes before it give.
    pub fn registry(&self, core_size: usize) -> (registry: PluginRegistry)
        requires
            core_size == self@.core.size(),
            self@.header_offset() <= usize::MAX,
        ensures
            registry@ == self@.records(),
    {
        let mut registry: Vec<RegistryRecord> = Vec::new();
        match &self.plugins {
            None => {
                assert(records_view(registry@) =~= self@.records());
            },
            Some(plugins) => {
                let ghost attachments = attachments_view(plugins@);
                let ghost kinds = plugins_of(attachments);
                let ghost all = records_of(core_size as int, attachments);
                let mut offset: usize = core_size;
                let mut i: usize = 0;
                while i < plugins.len()
                    invariant
                        i <= plugins.len(),
                        attachments == attachments_view(plugins@),
                        kinds == plugins_of(attachments),
                        all == records_of(core_size as int, attachments),
                        core_size + data_len(kinds) <= usize::MAX,
                        offset == core_size + data_len(kinds.take(i as int)),
                        records_view(registry@) == all.take(i as int),
                    decreases plugins.len() - i,
                {
                    proof {
                        lemma_data_len_take(kinds, i as int);
                    }
                    let record = RegistryRecord {
                        plugin_type: PluginType::of(&plugins[i].plugin),
                        offset,
                        authorities: copy_authorities(&plugins[i].authorities),
                    };
                    proof {
                        assert(attachments[i as int] == plugins@[i as int]@);
                        assert(record@ == all[i as int]);
                        lemma_records_view_push(registry@, record);
                        assert(all.take(i as int).push(all[i as int]) =~= all.take(i + 1));
                    }
                    registry.push(record);
                    offset = offset + plugins[i].plugin.size();
                    i += 1;
                }
                proof {
                    assert(all.take(plugins@.len() as int) =~= all);
                }
            },
        }
        PluginRegistry { registry }
    }

    /// The layout of the entity's buffer. `None` when the position of the
    /// registry does not fit the machine's word or a record cannot be encoded.
    pub fn plan(&self) -> (r: Option<Plan>)
        ensures
            match r {
                Some(plan) => {
                    &&& plan.core_size == self@.core.size()
                    &&& plan.header_offset == self@.header_offset()
                    &&& plan.registry@ == self@.records()
                    &&& self@.registry_offset() <= usize::MAX
                    &&& records_fit(self@.records())
                    &&& plan.tail@ == header_bytes(self@.registry_offset()) + registry_bytes(
                        self@.records(),
                    )
                },
                None => self@.registry_offset() > usize::MAX || !records_fit(self@.records()),
            },
    {
        let (core_size, header_offset) = match self.measure() {
            Some(pair) => pair,
            None => { return None; },
        };
        let registry_offset: usize = match header_offset.checked_add(9) {
            Some(n) => n,
            None => { return None; },
        };
        let registry = self.registry(core_size);
        let mut tail: Vec<u8> = Vec::new();
        PluginHeader { plugin_registry_offset: registry_offset }.put(&mut tail);
        if !registry.put(&mut tail) {
            return None;
        }
        proof {
            assert(tail@ =~= header_bytes(self@.registry_offset()) + registry_bytes(
                self@.records(),
            ));
        }
        Some(Plan { core_size, header_offset, registry, tail })
    }

    /// The index of the attached plugin of kind `plugin_type`, if there is one.
    pub fn find(&self, plugin_type: PluginType) -> (index: Option<usize>)
        ensures
            match index {
                Some(i) => self.plugins is Some && i < self.plugins.unwrap()@.len()
                    && self@.position(plugin_type) == Some(i as int),
                None => self@.position(plugin_type) is None,
            },
    {
        proof {
            lemma_position_of(self@.records(), plugin_type);
        }
        match &self.plugins {
            None => None,
            Some(plugins) => {
                let ghost records = self@.records();
                let mut i: usize = 0;
                while i < plugins.len()
                    invariant
                        i <= plugins.len(),
                        self.plugins == Some(*plugins),
                        records == self@.records(),
                        records == records_of(self@.core.size(), attachments_view(plugins@)),
                        forall|j: int|
                            0 <= j < i ==> (#[trigger] records[j]).plugin_type != plugin_type,
                    decreases plugins.len() - i,
                {
                    if PluginType::of(&plugins[i].plugin) == plugin_type {
                        proof {
                            lemma_position_of(records, plugin_type);
                            assert(records[i as int].plugin_type == plugin_type);
                            let found = crate::registry::position_of(records, plugin_type);
                            assert(found is Some);
                            assert(records[found.unwrap()].plugin_type == plugin_type);
                        }
                        return Some(i);
                    }
                    assert(records[i as int].plugin_type != plugin_type);
                    i += 1;
                }
                proof {
                    lemma_position_of(records, plugin_type);
                }
                None
            },
        }
    }
}

} // verus!
