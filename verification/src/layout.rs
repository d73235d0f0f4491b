//! The storage layout manager: the primitives that read, write, resize and
//! relocate the bytes of a buffer, and the operations that change an entity
//! in its buffer while keeping the buffer well formed.

use crate::entity::attachments_view;
use crate::entity::lemma_attachments_view_push;
use crate::entity::AttachedPlugin;
use crate::entity::Entity;
use crate::error::CoreError;
use crate::model::data_bytes;
use crate::model::data_len;
use crate::model::lemma_data_concat;
use crate::model::lemma_data_len;
use crate::model::lemma_data_single;
use crate::model::lemma_commit;
use crate::model::lemma_front;
use crate::model::lemma_front_back;
use crate::model::lemma_parts_from_wf;
use crate::model::lemma_parse_entity_bytes;
use crate::model::lemma_regions;
use crate::model::lemma_span;
use crate::model::parse_entity;
use crate::model::plugins_of;
use crate::model::structure_valid;
use crate::model::Attachment;
use crate::model::EntityView;
use crate::plugins::parse_plugin;
use crate::plugins::plugin_bytes;
use crate::plugins::plugin_len;
use crate::plugins::Plugin;
use crate::plugins::PluginType;
use crate::registry::lemma_position_of;
use crate::registry::copy_authorities;
use crate::registry::PluginHeader;
use crate::registry::PluginRegistry;
use crate::state::lemma_core_head_len;
use crate::state::Authority;
use crate::state::Core;
use crate::state::CoreView;
use solana_program::program_memory::sol_memcpy;
use vstd::prelude::*;

verus! {

/// `s` with the bytes from `at` on overwritten by `bytes`.
pub open spec fn splice(s: Seq<u8>, at: int, bytes: Seq<u8>) -> Seq<u8> {
    s.subrange(0, at) + bytes + s.subrange(at + bytes.len(), s.len() as int)
}

/// `n` zero bytes.
pub open spec fn zeros(n: nat) -> Seq<u8> {
    Seq::new(n, |i: int| 0u8)
}

/// `s` cut or padded with zero bytes to `n` bytes.
pub open spec fn resized(s: Seq<u8>, n: nat) -> Seq<u8> {
    if n <= s.len() {
        s.subrange(0, n as int)
    } else {
        s + zeros((n - s.len()) as nat)
    }
}

/// Copies `src` over the bytes of `dst` that begin at `at`, with
/// `solana_program::program_memory::sol_memcpy`. That function copies the
/// first `n` bytes of one slice to the start of another and leaves the rest
/// alone. It does not check `n` against the lengths of the slices, so the
/// range must lie inside `dst`; it panics when the two ranges overlap, which
/// a shared and an exclusive borrow cannot do.
#[verifier::external_body]
fn memcpy_at(dst: &mut Vec<u8>, at: usize, src: &Vec<u8>)
    requires
        at + src@.len() <= old(dst)@.len(),
    ensures
        final(dst)@ == splice(old(dst)@, at as int, src@),
{
    sol_memcpy(&mut dst[at..], src, src.len());
}

/// Sets the length of `buffer` to `new_len`: cuts it, or pads it with zero bytes.
pub fn resize(buffer: &mut Vec<u8>, new_len: usize)
    ensures
        final(buffer)@ == resized(old(buffer)@, new_len as nat),
{
    if new_len <= buffer.len() {
        buffer.truncate(new_len);
    } else {
        let ghost before = buffer@;
        while buffer.len() < new_len
            invariant
                before.len() <= buffer@.len() <= new_len,
                buffer@ == before + zeros((buffer@.len() - before.len()) as nat),
            decreases new_len - buffer.len(),
        {
            buffer.push(0);
            assert(buffer@ =~= before + zeros((buffer@.len() - before.len()) as nat));
        }
    }
}

/// The `length` bytes of `buffer` that begin at `offset`. Fails with
/// `Layout` when the range does not lie inside the buffer.
pub fn read(buffer: &Vec<u8>, offset: usize, length: usize) -> (r: Result<Vec<u8>, CoreError>)
    ensures
        match r {
            Ok(bytes) => offset + length <= buffer@.len() && bytes@ == buffer@.subrange(
                offset as int,
                offset + length,
            ),
            Err(error) => error == CoreError::Layout && offset + length > buffer@.len(),
        },
{
    if offset > buffer.len() || buffer.len() - offset < length {
        return Err(CoreError::Layout);
    }
    let mut bytes: Vec<u8> = Vec::new();
    let mut i: usize = 0;
    while i < length
        invariant
            i <= length,
            offset + length <= buffer.len(),
            bytes@ == buffer@.subrange(offset as int, offset + i),
        decreases length - i,
    {
        bytes.push(buffer[offset + i]);
        assert(bytes@ =~= buffer@.subrange(offset as int, offset + i + 1));
        i += 1;
    }
    Ok(bytes)
}

/// Overwrites the bytes of `buffer` from `offset` on with `bytes`. Fails
/// with `Layout`, and changes nothing, when the range does not lie inside
/// the buffer.
pub fn write(buffer: &mut Vec<u8>, offset: usize, bytes: &Vec<u8>) -> (r: Result<(), CoreError>)
    ensures
        match r {
            Ok(_) => offset + bytes@.len() <= old(buffer)@.len() && final(buffer)@ == splice(
                old(buffer)@,
                offset as int,
                bytes@,
            ),
            Err(error) => error == CoreError::Layout && offset + bytes@.len() > old(buffer)@.len()
                && final(buffer)@ == old(buffer)@,
        },
{
    if offset > buffer.len() || buffer.len() - offset < bytes.len() {
        return Err(CoreError::Layout);
    }
    memcpy_at(buffer, offset, bytes);
    Ok(())
}

/// Moves the `length` bytes that begin at `from` so that they begin at `to`,
/// as `memmove` does: the two ranges may overlap. Fails with `Layout`, and
/// changes nothing, when either range does not lie inside the buffer.
pub fn shift_region(buffer: &mut Vec<u8>, from: usize, to: usize, length: usize) -> (r: Result<
    (),
    CoreError,
>)
    ensures
        match r {
            Ok(_) => {
                &&& from + length <= old(buffer)@.len()
                &&& to + length <= old(buffer)@.len()
                &&& final(buffer)@ == splice(
                    old(buffer)@,
                    to as int,
                    old(buffer)@.subrange(from as int, from + length),
                )
            },
            Err(error) => {
                &&& error == CoreError::Layout
                &&& (from + length > old(buffer)@.len() || to + length > old(buffer)@.len())
                &&& final(buffer)@ == old(buffer)@
            },
        },
{
    let region = match read(buffer, from, length) {
        Ok(region) => region,
        Err(error) => { return Err(error); },
    };
    write(buffer, to, &region)
}

/// Replaces everything from `at` on by `tail`. Fails with `Layout`, and
/// changes nothing, when `at` lies beyond the buffer or the new length does
/// not fit the machine's word.
pub fn replace_tail(buffer: &mut Vec<u8>, at: usize, tail: &Vec<u8>) -> (r: Result<(), CoreError>)
    ensures
        match r {
            Ok(_) => {
                &&& at <= old(buffer)@.len()
                &&& at + tail@.len() <= usize::MAX
                &&& final(buffer)@ == old(buffer)@.subrange(0, at as int) + tail@
            },
            Err(error) => error == CoreError::Layout && (at > old(buffer)@.len() || at
                + tail@.len() > usize::MAX) && final(buffer)@ == old(buffer)@,
        },
{
    if at > buffer.len() {
        return Err(CoreError::Layout);
    }
    let new_len: usize = match at.checked_add(tail.len()) {
        Some(n) => n,
        None => { return Err(CoreError::Layout); },
    };
    resize(buffer, new_len);
    let done = write(buffer, at, tail);
    assert(buffer@ =~= old(buffer)@.subrange(0, at as int) + tail@);
    done
}

/// What an operation owes its caller: on success the buffer holds exactly
/// the entity that `outcome` names; on failure the error is the one that
/// `outcome` names and the buffer is as it was.
pub open spec fn committed(
    before: Seq<u8>,
    after: Seq<u8>,
    outcome: Result<EntityView, CoreError>,
    r: Result<(), CoreError>,
) -> bool {
    match outcome {
        Ok(entity) => r is Ok && entity.wf() && after == entity.bytes() && parse_entity(after)
            == Some(entity),
        Err(error) => r == Err::<(), CoreError>(error) && after == before,
    }
}

/// What attaching a plugin gives. The buffer must hold an entity; the
/// entity must not yet have a plugin of that kind; the plugin needs at least
/// one authority; and the larger entity must still be well formed.
pub open spec fn add_plugin_outcome(
    before: Option<EntityView>,
    plugin: Plugin,
    authorities: Seq<Authority>,
) -> Result<EntityView, CoreError> {
    match before {
        None => Err(CoreError::Layout),
        Some(entity) => if entity.position(PluginType::spec_of(plugin)) is Some
            || authorities.len() == 0 {
            Err(CoreError::InvalidState)
        } else if !entity.with_plugin(plugin, authorities).wf() {
            Err(CoreError::Layout)
        } else {
            Ok(entity.with_plugin(plugin, authorities))
        },
    }
}

/// Attaching a plugin of a kind that the entity does not hold keeps the
/// structure valid and extends the front of the buffer by the plugin's bytes.
pub proof fn lemma_with_plugin(entity: EntityView, plugin: Plugin, authorities: Seq<Authority>)
    requires
        entity.wf(),
        entity.position(PluginType::spec_of(plugin)) is None,
        authorities.len() > 0,
    ensures
        structure_valid(entity.with_plugin(plugin, authorities)),
        entity.with_plugin(plugin, authorities).front() == entity.front() + plugin_bytes(plugin),
{
    let after = entity.with_plugin(plugin, authorities);
    let old_list = entity.attachments();
    let new_list = after.attachments();
    let kind = PluginType::spec_of(plugin);
    lemma_position_of(entity.records(), kind);
    assert forall|i: int, j: int| 0 <= i < j < new_list.len() implies PluginType::spec_of(
        (#[trigger] new_list[i]).plugin,
    ) != PluginType::spec_of((#[trigger] new_list[j]).plugin) by {
        if j < old_list.len() {
            assert(old_list[i] == new_list[i] && old_list[j] == new_list[j]);
        } else {
            assert(entity.records()[i].plugin_type != kind);
        }
    }
    assert(plugins_of(new_list) =~= plugins_of(old_list) + seq![plugin]);
    lemma_data_concat(plugins_of(old_list), seq![plugin]);
    lemma_data_single(plugin);
    assert(after.front() =~= entity.front() + plugin_bytes(plugin));
}

/// Attaches `plugin` to the entity in `buffer`: its bytes go to the end of
/// the plugin data, a record for it goes to the end of the registry, and
/// the plugin header and the registry move behind the new plugin.
pub fn add_plugin(buffer: &mut Vec<u8>, plugin: Plugin, authorities: Vec<Authority>) -> (r: Result<
    (),
    CoreError,
>)
    ensures
        committed(
            old(buffer)@,
            final(buffer)@,
            add_plugin_outcome(parse_entity(old(buffer)@), plugin, authorities@),
            r,
        ),
{
    let entity = match Entity::deserialize(buffer) {
        Ok(entity) => entity,
        Err(error) => { return Err(error); },
    };
    let ghost before = entity@;
    let ghost given = authorities@;
    if entity.find(PluginType::of(&plugin)).is_some() || authorities.len() == 0 {
        return Err(CoreError::InvalidState);
    }
    proof {
        lemma_front(before);
        lemma_with_plugin(before, plugin, given);
    }
    let at: usize = match entity.measure() {
        Some((_, at)) => at,
        None => { return Err(CoreError::Layout); },
    };
    let after = attach(entity, plugin, authorities);
    proof {
        if after@.wf() {
            lemma_parts_from_wf(after@);
        }
    }
    let plan = match after.plan() {
        Some(plan) => plan,
        None => { return Err(CoreError::Layout); },
    };
    let mut tail: Vec<u8> = Vec::new();
    plugin.put(&mut tail);
    let mut rest = plan.tail;
    tail.append(&mut rest);
    proof {
        assert(buffer@.subrange(0, at as int) + tail@ =~= after@.front() + after@.back());
    }
    match replace_tail(buffer, at, &tail) {
        Ok(_) => {},
        Err(error) => { return Err(error); },
    }
    proof {
        lemma_commit(after@, buffer@);
    }
    Ok(())
}

/// `entity` with one more plugin, attached last.
fn attach(entity: Entity, plugin: Plugin, authorities: Vec<Authority>) -> (after: Entity)
    ensures
        after@ == entity@.with_plugin(plugin, authorities@),
{
    let ghost before = entity@;
    let Entity { core, plugins } = entity;
    let mut list = match plugins {
        Some(list) => list,
        None => Vec::new(),
    };
    let entry = AttachedPlugin { plugin, authorities };
    proof {
        lemma_attachments_view_push(list@, entry);
        assert(attachments_view(list@) =~= before.attachments());
    }
    list.push(entry);
    Entity { core, plugins: Some(list) }
}

/// What detaching the plugin of kind `plugin_type` gives. Detaching an
/// attached plugin always succeeds: the smaller entity is well formed.
pub open spec fn remove_plugin_outcome(before: Option<EntityView>, plugin_type: PluginType) -> Result<
    EntityView,
    CoreError,
> {
    match before {
        None => Err(CoreError::Layout),
        Some(entity) => match entity.position(plugin_type) {
            None => Err(CoreError::NotFound),
            Some(i) => Ok(entity.without(i)),
        },
    }
}

/// Detaching a plugin keeps the structure valid; the front of the new
/// buffer is the old front with the span of the plugin cut out.
pub proof fn lemma_without(entity: EntityView, i: int)
    requires
        entity.wf(),
        entity.plugins is Some,
        0 <= i < entity.attachments().len(),
    ensures
        ({
            let s = entity.bytes();
            let start = entity.offset_of(i);
            let end = start + plugin_len(entity.attachments()[i].plugin);
            &&& entity.core.size() <= start < end <= entity.header_offset()
            &&& entity.header_offset() <= s.len()
            &&& structure_valid(entity.without(i))
            &&& entity.without(i).core.fits()
            &&& entity.without(i).header_offset() == entity.header_offset() - (end - start)
            &&& entity.without(i).front() == s.subrange(0, start) + s.subrange(
                end,
                entity.header_offset(),
            )
        }),
{
    let after = entity.without(i);
    let old_list = entity.attachments();
    let new_list = after.attachments();
    let plugins = plugins_of(old_list);
    lemma_span(entity, i);
    lemma_front(entity);
    assert forall|a: int, b: int| 0 <= a < b < new_list.len() implies PluginType::spec_of(
        (#[trigger] new_list[a]).plugin,
    ) != PluginType::spec_of((#[trigger] new_list[b]).plugin) by {
        let a0 = if a < i { a } else { a + 1 };
        let b0 = if b < i { b } else { b + 1 };
        assert(new_list[a] == old_list[a0] && new_list[b] == old_list[b0]);
    }
    assert forall|a: int| 0 <= a < new_list.len() implies (#[trigger] new_list[a]).authorities.len()
        > 0 by {
        let a0 = if a < i { a } else { a + 1 };
        assert(new_list[a] == old_list[a0]);
    }
    assert(plugins_of(new_list) =~= plugins.take(i) + plugins.skip(i + 1));
    lemma_data_concat(plugins.take(i), plugins.skip(i + 1));
    assert(after.front() =~= entity.core.bytes() + data_bytes(plugins.take(i)) + data_bytes(
        plugins.skip(i + 1),
    ));
}

/// Detaches the plugin of kind `plugin_type` from the entity in `buffer`:
/// its span is cut out of the plugin data, every later byte moves left by
/// the length of the span, and its record leaves the registry.
pub fn remove_plugin(buffer: &mut Vec<u8>, plugin_type: PluginType) -> (r: Result<(), CoreError>)
    ensures
        committed(
            old(buffer)@,
            final(buffer)@,
            remove_plugin_outcome(parse_entity(old(buffer)@), plugin_type),
            r,
        ),
{
    let entity = match Entity::deserialize(buffer) {
        Ok(entity) => entity,
        Err(error) => { return Err(error); },
    };
    let ghost before = entity@;
    let i: usize = match entity.find(plugin_type) {
        Some(i) => i,
        None => { return Err(CoreError::NotFound); },
    };
    proof {
        lemma_parts_from_wf(before);
        lemma_without(before, i as int);
        lemma_span(before, i as int);
        crate::model::lemma_without_wf(before, i as int);
    }
    let plan = match entity.plan() {
        Some(plan) => plan,
        None => { return Err(CoreError::Layout); },
    };
    let start: usize = plan.registry.registry[i].offset;
    assert(start == before.records()[i as int].offset);
    let (after, removed) = detach(entity, i);
    let end: usize = start + removed.plugin.size();
    proof {
        if after@.wf() {
            lemma_parts_from_wf(after@);
        }
    }
    let next = match after.plan() {
        Some(next) => next,
        None => { return Err(CoreError::Layout); },
    };
    if next.header_offset.checked_add(next.tail.len()).is_none() {
        return Err(CoreError::Layout);
    }
    match shift_region(buffer, end, start, plan.header_offset - end) {
        Ok(_) => {},
        Err(error) => { return Err(error); },
    }
    proof {
        assert(buffer@.subrange(0, next.header_offset as int) =~= after@.front());
    }
    match replace_tail(buffer, next.header_offset, &next.tail) {
        Ok(_) => {},
        Err(error) => { return Err(error); },
    }
    proof {
        lemma_commit(after@, buffer@);
    }
    Ok(())
}

/// `entity` without the plugin with index `i`, and that plugin.
fn detach(entity: Entity, i: usize) -> (r: (Entity, AttachedPlugin))
    requires
        entity.plugins is Some,
        i < entity.plugins.unwrap()@.len(),
    ensures
        r.0@ == entity@.without(i as int),
        r.1@ == entity@.attachments()[i as int],
{
    let ghost before = entity@;
    let Entity { core, plugins } = entity;
    let mut list = plugins.unwrap();
    let ghost old_list = list@;
    let removed = list.remove(i);
    proof {
        assert(attachments_view(list@) =~= attachments_view(old_list).remove(i as int));
    }
    (Entity { core, plugins: Some(list) }, removed)
}

/// What replacing the core header gives.
pub open spec fn update_core_outcome(before: Option<EntityView>, core: CoreView) -> Result<
    EntityView,
    CoreError,
> {
    match before {
        None => Err(CoreError::Layout),
        Some(entity) => if !entity.with_core(core).wf() {
            Err(CoreError::Layout)
        } else {
            Ok(entity.with_core(core))
        },
    }
}

/// Replacing the core header keeps the plugins and their order: the front
/// of the new buffer is the new core header followed by the old plugin data.
pub proof fn lemma_with_core(entity: EntityView, core: CoreView)
    requires
        entity.wf(),
    ensures
        ({
            let s = entity.bytes();
            let after = entity.with_core(core);
            &&& structure_valid(after)
            &&& entity.core.size() <= entity.header_offset() <= s.len()
            &&& after.header_offset() == core.size() + (entity.header_offset()
                - entity.core.size())
            &&& after.front() == core.bytes() + s.subrange(
                entity.core.size(),
                entity.header_offset(),
            )
            &&& core.bytes().len() == core.size()
        }),
{
    lemma_core_head_len(core);
    lemma_core_head_len(entity.core);
    lemma_front(entity);
    lemma_data_len(plugins_of(entity.attachments()));
    if entity.plugins is Some {
        lemma_regions(entity);
    } else {
        assert(plugins_of(entity.attachments()) =~= Seq::<Plugin>::empty());
        assert(entity.bytes().subrange(entity.core.size(), entity.header_offset())
            =~= Seq::<u8>::empty());
    }
}

/// Law of the core resize: when the core header changes its size, the
/// offset of every plugin, the position of the plugin header and the
/// position of the registry all change by the same difference.
pub proof fn lemma_core_resize_shifts(entity: EntityView, core: CoreView, i: int)
    requires
        entity.plugins is Some,
        0 <= i < entity.attachments().len(),
    ensures
        ({
            let after = entity.with_core(core);
            let diff = core.size() - entity.core.size();
            &&& after.records()[i].offset == entity.records()[i].offset + diff
            &&& after.header_offset() == entity.header_offset() + diff
            &&& after.registry_offset() == entity.registry_offset() + diff
            &&& after.records()[i].plugin_type == entity.records()[i].plugin_type
            &&& after.records()[i].authorities == entity.records()[i].authorities
        }),
{
}

/// Replaces the core header of the entity in `buffer` by `core`. When the
/// size of the header changes, the whole plugin data region is moved by the
/// difference, the buffer is resized, and the plugin header and every
/// record of the registry are rewritten with their new offsets.
pub fn update_core(buffer: &mut Vec<u8>, core: Core) -> (r: Result<(), CoreError>)
    ensures
        committed(
            old(buffer)@,
            final(buffer)@,
            update_core_outcome(parse_entity(old(buffer)@), core@),
            r,
        ),
{
    let entity = match Entity::deserialize(buffer) {
        Ok(entity) => entity,
        Err(error) => { return Err(error); },
    };
    let ghost before = entity@;
    proof {
        lemma_with_core(before, core@);
    }
    let (old_size, old_end) = match entity.measure() {
        Some(pair) => pair,
        None => { return Err(CoreError::Layout); },
    };
    let after = Entity { core, plugins: entity.plugins };
    assert(after@ == before.with_core(core@));
    let mut head: Vec<u8> = Vec::new();
    if !after.core.put(&mut head) {
        return Err(CoreError::Layout);
    }
    assert(head@ =~= core@.bytes());
    if after.plugins.is_none() {
        match replace_tail(buffer, 0, &head) {
            Ok(_) => {},
            Err(error) => { return Err(error); },
        }
        proof {
            assert(buffer@ =~= after@.bytes());
            lemma_parse_entity_bytes(after@);
        }
        return Ok(());
    }
    proof {
        if after@.wf() {
            lemma_parts_from_wf(after@);
        }
    }
    let next = match after.plan() {
        Some(next) => next,
        None => { return Err(CoreError::Layout); },
    };
    let new_len: usize = match next.header_offset.checked_add(next.tail.len()) {
        Some(n) => n,
        None => { return Err(CoreError::Layout); },
    };
    if new_len > buffer.len() {
        resize(buffer, new_len);
    }
    let ghost grown = buffer@;
    assert(grown.subrange(old_size as int, old_end as int) =~= old(buffer)@.subrange(
        old_size as int,
        old_end as int,
    ));
    match shift_region(buffer, old_size, next.core_size, old_end - old_size) {
        Ok(_) => {},
        Err(error) => { return Err(error); },
    }
    match write(buffer, 0, &head) {
        Ok(_) => {},
        Err(error) => { return Err(error); },
    }
    proof {
        assert(buffer@.subrange(0, next.header_offset as int) =~= after@.front());
    }
    match replace_tail(buffer, next.header_offset, &next.tail) {
        Ok(_) => {},
        Err(error) => { return Err(error); },
    }
    proof {
        lemma_commit(after@, buffer@);
    }
    Ok(())
}

/// What giving the plugin of kind `plugin_type` other authorities gives.
pub open spec fn set_authorities_outcome(
    before: Option<EntityView>,
    plugin_type: PluginType,
    authorities: Seq<Authority>,
) -> Result<EntityView, CoreError> {
    match before {
        None => Err(CoreError::Layout),
        Some(entity) => match entity.position(plugin_type) {
            None => Err(CoreError::NotFound),
            Some(i) => if authorities.len() == 0 {
                Err(CoreError::InvalidState)
            } else if !entity.with_authorities(i, authorities).wf() {
                Err(CoreError::Layout)
            } else {
                Ok(entity.with_authorities(i, authorities))
            },
        },
    }
}

/// Other authorities for one plugin change nothing but the registry.
pub proof fn lemma_with_authorities(entity: EntityView, i: int, authorities: Seq<Authority>)
    requires
        entity.wf(),
        entity.plugins is Some,
        0 <= i < entity.attachments().len(),
        authorities.len() > 0,
    ensures
        structure_valid(entity.with_authorities(i, authorities)),
        entity.with_authorities(i, authorities).front() == entity.front(),
        entity.with_authorities(i, authorities).header_offset() == entity.header_offset(),
{
    let after = entity.with_authorities(i, authorities);
    let old_list = entity.attachments();
    let new_list = after.attachments();
    assert forall|a: int, b: int| 0 <= a < b < new_list.len() implies PluginType::spec_of(
        (#[trigger] new_list[a]).plugin,
    ) != PluginType::spec_of((#[trigger] new_list[b]).plugin) by {
        assert(new_list[a].plugin == old_list[a].plugin && new_list[b].plugin
            == old_list[b].plugin);
    }
    assert forall|a: int| 0 <= a < new_list.len() implies (#[trigger] new_list[a]).authorities.len()
        > 0 by {
        if a != i {
            assert(new_list[a] == old_list[a]);
        }
    }
    assert(plugins_of(new_list) =~= plugins_of(old_list));
}

/// Gives the plugin of kind `plugin_type` the authorities `authorities`.
/// Only the registry changes; the buffer grows or shrinks at its end.
pub fn set_authorities(
    buffer: &mut Vec<u8>,
    plugin_type: PluginType,
    authorities: Vec<Authority>,
) -> (r: Result<(), CoreError>)
    ensures
        committed(
            old(buffer)@,
            final(buffer)@,
            set_authorities_outcome(parse_entity(old(buffer)@), plugin_type, authorities@),
            r,
        ),
{
    let entity = match Entity::deserialize(buffer) {
        Ok(entity) => entity,
        Err(error) => { return Err(error); },
    };
    let ghost before = entity@;
    let ghost given = authorities@;
    let i: usize = match entity.find(plugin_type) {
        Some(i) => i,
        None => { return Err(CoreError::NotFound); },
    };
    if authorities.len() == 0 {
        return Err(CoreError::InvalidState);
    }
    proof {
        lemma_front(before);
        lemma_with_authorities(before, i as int, given);
    }
    let Entity { core, plugins } = entity;
    let mut list = plugins.unwrap();
    let ghost old_list = list@;
    let plugin = list[i].plugin;
    list.set(i, AttachedPlugin { plugin, authorities });
    let after = Entity { core, plugins: Some(list) };
    proof {
        assert(attachments_view(list@) =~= attachments_view(old_list).update(
            i as int,
            Attachment { plugin, authorities: given },
        ));
        assert(after@ == before.with_authorities(i as int, given));
        if after@.wf() {
            lemma_parts_from_wf(after@);
        }
    }
    let next = match after.plan() {
        Some(next) => next,
        None => { return Err(CoreError::Layout); },
    };
    match replace_tail(buffer, next.header_offset, &next.tail) {
        Ok(_) => {},
        Err(error) => {
            proof {
                lemma_front_back(after@);
            }
            return Err(error);
        },
    }
    proof {
        lemma_commit(after@, buffer@);
    }
    Ok(())
}

/// What writing a new state for an attached plugin gives. The plugin that
/// is replaced is the one of the same kind.
pub open spec fn write_plugin_outcome(before: Option<EntityView>, plugin: Plugin) -> Result<
    EntityView,
    CoreError,
> {
    match before {
        None => Err(CoreError::Layout),
        Some(entity) => match entity.position(PluginType::spec_of(plugin)) {
            None => Err(CoreError::NotFound),
            Some(i) => Ok(entity.with_state(i, plugin)),
        },
    }
}

/// A new state for a plugin keeps every record of the registry: the kinds,
/// the offsets and the authorities stay as they are.
pub proof fn lemma_with_state_records(entity: EntityView, i: int, plugin: Plugin)
    requires
        entity.plugins is Some,
        0 <= i < entity.attachments().len(),
        PluginType::spec_of(plugin) == PluginType::spec_of(entity.attachments()[i].plugin),
    ensures
        plugin_len(plugin) == plugin_len(entity.attachments()[i].plugin),
        entity.with_state(i, plugin).records() == entity.records(),
        entity.with_state(i, plugin).header_offset() == entity.header_offset(),
        entity.with_state(i, plugin).size() == entity.size(),
        plugins_of(entity.with_state(i, plugin).attachments()) == plugins_of(
            entity.attachments(),
        ).update(i, plugin),
{
    let after = entity.with_state(i, plugin);
    let old_plugins = plugins_of(entity.attachments());
    let new_plugins = plugins_of(after.attachments());
    assert(new_plugins =~= old_plugins.update(i, plugin));
    assert forall|k: int| 0 <= k <= new_plugins.len() implies data_len(
        #[trigger] new_plugins.take(k),
    ) == data_len(old_plugins.take(k)) by {
        lemma_take_same_len(old_plugins, new_plugins, k);
    }
    assert(new_plugins.take(new_plugins.len() as int) =~= new_plugins);
    assert(old_plugins.take(old_plugins.len() as int) =~= old_plugins);
    assert(after.records() =~= entity.records());
}

/// A new state for a plugin keeps the entity well formed.
pub proof fn lemma_with_state_wf(entity: EntityView, i: int, plugin: Plugin)
    requires
        entity.wf(),
        entity.plugins is Some,
        0 <= i < entity.attachments().len(),
        PluginType::spec_of(plugin) == PluginType::spec_of(entity.attachments()[i].plugin),
    ensures
        entity.with_state(i, plugin).wf(),
{
    let after = entity.with_state(i, plugin);
    let old_list = entity.attachments();
    let new_list = after.attachments();
    lemma_with_state_records(entity, i, plugin);
    assert forall|a: int, b: int| 0 <= a < b < new_list.len() implies PluginType::spec_of(
        (#[trigger] new_list[a]).plugin,
    ) != PluginType::spec_of((#[trigger] new_list[b]).plugin) by {
        assert(PluginType::spec_of(new_list[a].plugin) == PluginType::spec_of(
            old_list[a].plugin,
        ));
        assert(PluginType::spec_of(new_list[b].plugin) == PluginType::spec_of(
            old_list[b].plugin,
        ));
    }
    assert forall|a: int| 0 <= a < new_list.len() implies 0 < (
    #[trigger] new_list[a]).authorities.len() <= u32::MAX by {
        assert(new_list[a].authorities == old_list[a].authorities);
    }
}

/// A new state for a plugin changes the front of the buffer in the span of
/// the plugin only.
pub proof fn lemma_with_state_front(entity: EntityView, i: int, plugin: Plugin)
    requires
        entity.wf(),
        entity.plugins is Some,
        0 <= i < entity.attachments().len(),
        PluginType::spec_of(plugin) == PluginType::spec_of(entity.attachments()[i].plugin),
    ensures
        ({
            let s = entity.bytes();
            let start = entity.offset_of(i);
            let end = start + plugin_len(plugin);
            &&& 0 <= start < end <= entity.header_offset()
            &&& entity.with_state(i, plugin).front() == s.subrange(0, start) + plugin_bytes(plugin)
                + s.subrange(end, entity.header_offset())
        }),
{
    let after = entity.with_state(i, plugin);
    let old_plugins = plugins_of(entity.attachments());
    let new_plugins = plugins_of(after.attachments());
    lemma_with_state_records(entity, i, plugin);
    lemma_span(entity, i);
    lemma_core_head_len(entity.core);
    assert(new_plugins =~= old_plugins.take(i) + seq![plugin] + old_plugins.skip(i + 1));
    lemma_data_single(plugin);
    lemma_data_concat(old_plugins.take(i), seq![plugin]);
    lemma_data_concat(old_plugins.take(i) + seq![plugin], old_plugins.skip(i + 1));
    assert(after.front() =~= entity.core.bytes() + data_bytes(old_plugins.take(i))
        + plugin_bytes(plugin) + data_bytes(old_plugins.skip(i + 1)));
}

/// Two plugins of one kind have encodings of one length, so a new state
/// takes exactly the span of the old one: nothing moves, no offset changes,
/// and the entity stays well formed.
pub proof fn lemma_with_state(entity: EntityView, i: int, plugin: Plugin)
    requires
        entity.wf(),
        entity.plugins is Some,
        0 <= i < entity.attachments().len(),
        PluginType::spec_of(plugin) == PluginType::spec_of(entity.attachments()[i].plugin),
    ensures
        ({
            let after = entity.with_state(i, plugin);
            let start = entity.offset_of(i);
            &&& after.wf()
            &&& plugin_len(plugin) == plugin_len(entity.attachments()[i].plugin)
            &&& plugin_bytes(plugin).len() == plugin_len(plugin)
            &&& start + plugin_len(plugin) <= entity.header_offset() <= entity.bytes().len()
            &&& entity.records()[i].offset == start
            &&& after.records() == entity.records()
            &&& after.bytes() == splice(entity.bytes(), start, plugin_bytes(plugin))
        }),
{
    let after = entity.with_state(i, plugin);
    let s = entity.bytes();
    let start = entity.offset_of(i);
    let end = start + plugin_len(plugin);
    let d = entity.header_offset();
    crate::plugins::lemma_plugin_len(plugin);
    lemma_with_state_records(entity, i, plugin);
    lemma_with_state_wf(entity, i, plugin);
    lemma_with_state_front(entity, i, plugin);
    lemma_front(entity);
    lemma_front_back(after);
    lemma_front_back(entity);
    assert(after.back() == entity.back());
    assert(s.subrange(d, s.len() as int) == entity.back()) by {
        lemma_regions(entity);
    }
    assert(after.bytes() =~= splice(s, start, plugin_bytes(plugin))) by {
        let spliced = splice(s, start, plugin_bytes(plugin));
        assert(spliced =~= s.subrange(0, start) + plugin_bytes(plugin) + s.subrange(end, d)
            + s.subrange(d, s.len() as int));
    }
}

/// Plugins of the same kinds, position by position, take the same room.
pub proof fn lemma_take_same_len(a: Seq<Plugin>, b: Seq<Plugin>, k: int)
    requires
        a.len() == b.len(),
        0 <= k <= a.len(),
        forall|j: int|
            0 <= j < a.len() ==> PluginType::spec_of(#[trigger] a[j]) == PluginType::spec_of(b[j]),
    ensures
        data_len(a.take(k)) == data_len(b.take(k)),
    decreases k,
{
    if k > 0 {
        lemma_take_same_len(a, b, k - 1);
        assert(a.take(k).drop_last() =~= a.take(k - 1));
        assert(b.take(k).drop_last() =~= b.take(k - 1));
        assert(PluginType::spec_of(a[k - 1]) == PluginType::spec_of(b[k - 1]));
    }
}

/// Writes `plugin` over the attached plugin of the same kind, in place.
pub fn write_plugin(buffer: &mut Vec<u8>, plugin: Plugin) -> (r: Result<(), CoreError>)
    ensures
        committed(
            old(buffer)@,
            final(buffer)@,
            write_plugin_outcome(parse_entity(old(buffer)@), plugin),
            r,
        ),
{
    let entity = match Entity::deserialize(buffer) {
        Ok(entity) => entity,
        Err(error) => { return Err(error); },
    };
    let ghost before = entity@;
    let i: usize = match entity.find(PluginType::of(&plugin)) {
        Some(i) => i,
        None => { return Err(CoreError::NotFound); },
    };
    proof {
        lemma_parts_from_wf(before);
        assert(PluginType::spec_of(before.attachments()[i as int].plugin)
            == before.records()[i as int].plugin_type);
        lemma_position_of(before.records(), PluginType::spec_of(plugin));
        lemma_with_state(before, i as int, plugin);
    }
    let plan = match entity.plan() {
        Some(plan) => plan,
        None => { return Err(CoreError::Layout); },
    };
    let start: usize = plan.registry.registry[i].offset;
    assert(start == before.records()[i as int].offset);
    let mut bytes: Vec<u8> = Vec::new();
    plugin.put(&mut bytes);
    assert(bytes@ =~= plugin_bytes(plugin));
    match write(buffer, start, &bytes) {
        Ok(_) => {},
        Err(error) => { return Err(error); },
    }
    proof {
        lemma_parse_entity_bytes(before.with_state(i as int, plugin));
    }
    Ok(())
}

/// Reads the index of the entity in `buffer`: its core header and, when
/// it has plugins, its plugin header and its registry. The plugin header
/// records the position of the registry; each record of the registry
/// records the position of its plugin.
pub fn fetch_core_data(buffer: &Vec<u8>) -> (r: Result<
    (Core, Option<PluginHeader>, Option<PluginRegistry>),
    CoreError,
>)
    ensures
        match r {
            Ok((core, header, registry)) => {
                &&& parse_entity(buffer@) is Some
                &&& core@ == parse_entity(buffer@).unwrap().core
                &&& match parse_entity(buffer@).unwrap().plugins {
                    Some(_) => {
                        &&& header is Some
                        &&& registry is Some
                        &&& header.unwrap().plugin_registry_offset == parse_entity(
                            buffer@,
                        ).unwrap().registry_offset()
                        &&& registry.unwrap()@ == parse_entity(buffer@).unwrap().records()
                    },
                    None => header is None && registry is None,
                }
            },
            Err(error) => error == CoreError::Layout && parse_entity(buffer@) is None,
        },
{
    let entity = match Entity::deserialize(buffer) {
        Ok(entity) => entity,
        Err(error) => { return Err(error); },
    };
    if entity.plugins.is_none() {
        return Ok((entity.core, None, None));
    }
    proof {
        lemma_parts_from_wf(entity@);
    }
    match entity.plan() {
        Some(plan) => {
            let header = PluginHeader { plugin_registry_offset: plan.header_offset + 9 };
            Ok((entity.core, Some(header), Some(plan.registry)))
        },
        None => Err(CoreError::Layout),
    }
}

/// What looking for the plugin of kind `plugin_type` gives: its
/// authorities, its state and the position of its first byte.
pub open spec fn fetch_plugin_outcome(before: Option<EntityView>, plugin_type: PluginType) -> Result<
    (Seq<Authority>, Plugin, int),
    CoreError,
> {
    match before {
        None => Err(CoreError::Layout),
        Some(entity) => match entity.position(plugin_type) {
            None => Err(CoreError::NotFound),
            Some(i) => Ok(
                (
                    entity.attachments()[i].authorities,
                    entity.attachments()[i].plugin,
                    entity.offset_of(i),
                ),
            ),
        },
    }
}

/// Looks for the plugin of kind `plugin_type` in `buffer`.
pub fn fetch_plugin(buffer: &Vec<u8>, plugin_type: PluginType) -> (r: Result<
    (Vec<Authority>, Plugin, usize),
    CoreError,
>)
    ensures
        match fetch_plugin_outcome(parse_entity(buffer@), plugin_type) {
            Ok((authorities, plugin, offset)) => {
                &&& r is Ok
                &&& r.unwrap().0@ == authorities
                &&& r.unwrap().1 == plugin
                &&& r.unwrap().2 == offset
                &&& parse_plugin(buffer@, offset) == Some((plugin, offset + plugin_len(plugin)))
            },
            Err(error) => r is Err && r.unwrap_err() == error,
        },
{
    let entity = match Entity::deserialize(buffer) {
        Ok(entity) => entity,
        Err(error) => { return Err(error); },
    };
    let i: usize = match entity.find(plugin_type) {
        Some(i) => i,
        None => { return Err(CoreError::NotFound); },
    };
    proof {
        lemma_parts_from_wf(entity@);
        lemma_span(entity@, i as int);
        lemma_front(entity@);
        let plugin = entity@.attachments()[i as int].plugin;
        assert(plugins_of(entity@.attachments())[i as int] == plugin);
        crate::plugins::lemma_parse_plugin_bytes(buffer@, entity@.offset_of(i as int), plugin);
    }
    let plan = match entity.plan() {
        Some(plan) => plan,
        None => { return Err(CoreError::Layout); },
    };
    let offset: usize = plan.registry.registry[i].offset;
    assert(offset == entity@.records()[i as int].offset);
    let plugins = entity.plugins.unwrap();
    let attached = &plugins[i];
    assert(attached@ == entity@.attachments()[i as int]);
    Ok((copy_authorities(&attached.authorities), attached.plugin, offset))
}

} // verus!
