//! The plugin header and the plugin registry: the index that says where
//! each attached plugin lies in the buffer and who governs it.

use crate::codec::get_u32;
use crate::codec::get_u64;
use crate::codec::lemma_int_bytes_len;
use crate::codec::lemma_join_at;
use crate::codec::lemma_parse_u32_bytes;
use crate::codec::lemma_parse_u64_bytes;
use crate::codec::lemma_split_at;
use crate::codec::lemma_u32_bytes_parse;
use crate::codec::lemma_u64_bytes_parse;
use crate::codec::parse_u32;
use crate::codec::parse_u64;
use crate::codec::put_u32;
use crate::codec::put_u64;
use crate::codec::u32_bytes;
use crate::codec::u64_bytes;
use crate::error::CoreError;
use crate::plugins::plugin_tag;
use crate::plugins::PluginType;
use crate::state::authority_bytes;
use crate::state::get_authority;
use crate::state::lemma_authority_bytes_parse;
use crate::state::lemma_parse_authority_bytes;
use crate::state::parse_authority;
use crate::state::put_authority;
use crate::state::Authority;
use crate::state::KEY_PLUGIN_HEADER;
use crate::state::KEY_PLUGIN_REGISTRY;
use vstd::prelude::*;

verus! {

/// The encodings of `items`, one after the other.
pub open spec fn authorities_flat(items: Seq<Authority>) -> Seq<u8>
    decreases items.len(),
{
    if items.len() == 0 {
        Seq::empty()
    } else {
        authorities_flat(items.drop_last()) + authority_bytes(items.last())
    }
}

/// The encoding of an authority set: the number of its members, then the members.
pub open spec fn authorities_bytes(items: Seq<Authority>) -> Seq<u8> {
    u32_bytes(items.len() as u32) + authorities_flat(items)
}

/// Reads `n` authorities, one after the other, from `pos` on.
pub open spec fn parse_authorities_n(s: Seq<u8>, pos: int, n: nat) -> Option<(Seq<Authority>, int)>
    decreases n,
{
    if n == 0 {
        if 0 <= pos <= s.len() {
            Some((Seq::empty(), pos))
        } else {
            None
        }
    } else {
        match parse_authorities_n(s, pos, (n - 1) as nat) {
            Some((items, mid)) => match parse_authority(s, mid) {
                Some((item, end)) => Some((items.push(item), end)),
                None => None,
            },
            None => None,
        }
    }
}

/// Reads an authority set at `pos`.
pub open spec fn parse_authorities(s: Seq<u8>, pos: int) -> Option<(Seq<Authority>, int)> {
    match parse_u32(s, pos) {
        Some((n, start)) => parse_authorities_n(s, start, n as nat),
        None => None,
    }
}

/// Adding a member to a set appends its encoding.
pub proof fn lemma_authorities_flat_push(items: Seq<Authority>, item: Authority)
    ensures
        authorities_flat(items.push(item)) == authorities_flat(items) + authority_bytes(item),
{
    assert(items.push(item).drop_last() =~= items);
}

/// Reading what `authorities_flat` printed gives the members back.
pub proof fn lemma_parse_authorities_flat(s: Seq<u8>, pos: int, items: Seq<Authority>)
    requires
        0 <= pos,
        pos + authorities_flat(items).len() <= s.len(),
        s.subrange(pos, pos + authorities_flat(items).len()) == authorities_flat(items),
    ensures
        parse_authorities_n(s, pos, items.len()) == Some(
            (items, pos + authorities_flat(items).len()),
        ),
    decreases items.len(),
{
    if items.len() > 0 {
        let front = items.drop_last();
        let last = items.last();
        lemma_split_at(s, pos, authorities_flat(front), authority_bytes(last));
        lemma_parse_authorities_flat(s, pos, front);
        lemma_parse_authority_bytes(s, pos + authorities_flat(front).len(), last);
        assert(front.push(last) =~= items);
    }
}

/// What `parse_authorities_n` read is the printing of its result.
pub proof fn lemma_authorities_flat_parse(s: Seq<u8>, pos: int, n: nat)
    requires
        parse_authorities_n(s, pos, n) is Some,
    ensures
        ({
            let (items, end) = parse_authorities_n(s, pos, n).unwrap();
            &&& items.len() == n
            &&& 0 <= pos <= end <= s.len()
            &&& end == pos + authorities_flat(items).len()
            &&& s.subrange(pos, end) == authorities_flat(items)
        }),
    decreases n,
{
    if n == 0 {
        assert(s.subrange(pos, pos) =~= Seq::<u8>::empty());
    } else {
        let (front, mid) = parse_authorities_n(s, pos, (n - 1) as nat).unwrap();
        let (item, end) = parse_authority(s, mid).unwrap();
        lemma_authorities_flat_parse(s, pos, (n - 1) as nat);
        lemma_authority_bytes_parse(s, mid);
        lemma_authorities_flat_push(front, item);
        lemma_join_at(s, pos, mid, end);
    }
}

/// Reading what `authorities_bytes` printed gives the set back.
pub proof fn lemma_parse_authorities_bytes(s: Seq<u8>, pos: int, items: Seq<Authority>)
    requires
        0 <= pos,
        items.len() <= u32::MAX,
        pos + authorities_bytes(items).len() <= s.len(),
        s.subrange(pos, pos + authorities_bytes(items).len()) == authorities_bytes(items),
    ensures
        parse_authorities(s, pos) == Some((items, pos + authorities_bytes(items).len())),
        authorities_bytes(items).len() == 4 + authorities_flat(items).len(),
{
    let n = items.len() as u32;
    lemma_int_bytes_len(n, 0);
    lemma_split_at(s, pos, u32_bytes(n), authorities_flat(items));
    lemma_parse_u32_bytes(s, pos, n);
    lemma_parse_authorities_flat(s, pos + 4, items);
}

/// What `parse_authorities` read is the printing of its result.
pub proof fn lemma_authorities_bytes_parse(s: Seq<u8>, pos: int)
    requires
        parse_authorities(s, pos) is Some,
    ensures
        ({
            let (items, end) = parse_authorities(s, pos).unwrap();
            &&& items.len() <= u32::MAX
            &&& 0 <= pos < end <= s.len()
            &&& end == pos + authorities_bytes(items).len()
            &&& s.subrange(pos, end) == authorities_bytes(items)
        }),
{
    let (n, start) = parse_u32(s, pos).unwrap();
    lemma_u32_bytes_parse(s, pos);
    lemma_authorities_flat_parse(s, start, n as nat);
    let (items, end) = parse_authorities(s, pos).unwrap();
    lemma_join_at(s, pos, start, end);
}

/// Appends the encoding of an authority set to `out`, or leaves `out` as it
/// was and returns `false` when the set has too many members to be counted
/// in 32 bits.
pub fn put_authorities(out: &mut Vec<u8>, items: &Vec<Authority>) -> (done: bool)
    ensures
        done == (items@.len() <= u32::MAX),
        done ==> final(out)@ == old(out)@ + authorities_bytes(items@),
        !done ==> final(out)@ == old(out)@,
{
    if items.len() > u32::MAX as usize {
        return false;
    }
    put_u32(out, items.len() as u32);
    let ghost start = out@;
    let mut i: usize = 0;
    while i < items.len()
        invariant
            i <= items.len(),
            out@ == start + authorities_flat(items@.take(i as int)),
        decreases items.len() - i,
    {
        put_authority(out, &items[i]);
        proof {
            lemma_authorities_flat_push(items@.take(i as int), items@[i as int]);
            assert(items@.take(i as int).push(items@[i as int]) =~= items@.take(i + 1));
            assert(out@ =~= start + authorities_flat(items@.take(i + 1)));
        }
        i += 1;
    }
    proof {
        assert(items@.take(items@.len() as int) =~= items@);
        assert(out@ =~= old(out)@ + authorities_bytes(items@));
    }
    true
}

/// Reads an authority set at `pos`.
pub fn get_authorities(buffer: &Vec<u8>, pos: usize) -> (r: Option<(Vec<Authority>, usize)>)
    ensures
        match r {
            Some((items, end)) => parse_authorities(buffer@, pos as int) == Some(
                (items@, end as int),
            ),
            None => parse_authorities(buffer@, pos as int) is None,
        },
{
    let (n, start) = match get_u32(buffer, pos) {
        Some(pair) => pair,
        None => { return None; },
    };
    let mut items: Vec<Authority> = Vec::new();
    let mut at: usize = start;
    let mut i: u32 = 0;
    while i < n
        invariant
            i <= n,
            parse_u32(buffer@, pos as int) == Some((n, start as int)),
            parse_authorities_n(buffer@, start as int, i as nat) == Some((items@, at as int)),
        decreases n - i,
    {
        match get_authority(buffer, at) {
            Some((item, end)) => {
                items.push(item);
                at = end;
            },
            None => {
                proof {
                    assert(parse_authorities_n(buffer@, start as int, (i + 1) as nat) is None);
                    lemma_authorities_none_extends(buffer@, start as int, (i + 1) as nat, n as nat);
                }
                return None;
            },
        }
        i += 1;
    }
    Some((items, at))
}

/// Once the first `k` authorities cannot be read, no larger number can.
pub proof fn lemma_authorities_none_extends(s: Seq<u8>, pos: int, k: nat, n: nat)
    requires
        k <= n,
        parse_authorities_n(s, pos, k) is None,
    ensures
        parse_authorities_n(s, pos, n) is None,
    decreases n,
{
    if k < n {
        lemma_authorities_none_extends(s, pos, k, (n - 1) as nat);
    }
}

/// One entry of the registry: the kind of an attached plugin, where its
/// bytes begin, and who governs it.
#[derive(Clone, Debug, PartialEq, Eq)]
pub struct RegistryRecord {
    /// The kind of the plugin.
    pub plugin_type: PluginType,
    /// The position of the plugin's first byte in the buffer.
    pub offset: usize,
    /// The authorities that govern the plugin.
    pub authorities: Vec<Authority>,
}

/// The mathematical value of a registry record.
pub struct RecordView {
    pub plugin_type: PluginType,
    pub offset: int,
    pub authorities: Seq<Authority>,
}

impl View for RegistryRecord {
    type V = RecordView;

    open spec fn view(&self) -> RecordView {
        RecordView {
            plugin_type: self.plugin_type,
            offset: self.offset as int,
            authorities: self.authorities@,
        }
    }
}

impl RecordView {
    /// The record can be encoded: its offset fits the machine's word and its
    /// authorities can be counted in 32 bits.
    pub open spec fn fits(self) -> bool {
        0 <= self.offset <= usize::MAX && self.authorities.len() <= u32::MAX
    }

    /// The encoding of the record.
    pub open spec fn bytes(self) -> Seq<u8> {
        seq![plugin_tag(self.plugin_type)] + u64_bytes(self.offset as u64) + authorities_bytes(
            self.authorities,
        )
    }

    /// Number of bytes of the encoding.
    pub open spec fn size(self) -> int {
        13 + authorities_flat(self.authorities).len() as int
    }
}

/// Reads a registry record at `pos`.
#[verifier::opaque]
pub open spec fn parse_record(s: Seq<u8>, pos: int) -> Option<(RecordView, int)> {
    if 0 <= pos < s.len() {
        match PluginType::spec_from_tag(s[pos]) {
            Some(plugin_type) => match parse_u64(s, pos + 1) {
                Some((offset, stop1)) => if offset <= usize::MAX {
                    match parse_authorities(s, stop1) {
                        Some((authorities, end)) => Some(
                            (RecordView { plugin_type, offset: offset as int, authorities }, end),
                        ),
                        None => None,
                    }
                } else {
                    None
                },
                None => None,
            },
            None => None,
        }
    } else {
        None
    }
}

/// The printed length of a record.
pub proof fn lemma_record_len(record: RecordView)
    ensures
        record.bytes().len() == record.size(),
        record.size() >= 13,
{
    lemma_int_bytes_len(record.authorities.len() as u32, record.offset as u64);
}

/// Reading what `RecordView::bytes` printed gives the record back.
pub proof fn lemma_parse_record_bytes(s: Seq<u8>, pos: int, record: RecordView)
    requires
        0 <= pos,
        record.fits(),
        pos + record.size() <= s.len(),
        s.subrange(pos, pos + record.size()) == record.bytes(),
    ensures
        parse_record(s, pos) == Some((record, pos + record.size())),
{
    reveal(parse_record);
    lemma_record_len(record);
    lemma_int_bytes_len(record.authorities.len() as u32, record.offset as u64);
    let tag = seq![plugin_tag(record.plugin_type)];
    let offset = u64_bytes(record.offset as u64);
    let authorities = authorities_bytes(record.authorities);
    lemma_split_at(s, pos, tag + offset, authorities);
    lemma_split_at(s, pos, tag, offset);
    assert(s.subrange(pos, pos + 1)[0] == s[pos]);
    lemma_parse_u64_bytes(s, pos + 1, record.offset as u64);
    lemma_parse_authorities_bytes(s, pos + 9, record.authorities);
}

/// What `parse_record` read is the printing of its result.
pub proof fn lemma_record_bytes_parse(s: Seq<u8>, pos: int)
    requires
        parse_record(s, pos) is Some,
    ensures
        ({
            let (record, end) = parse_record(s, pos).unwrap();
            &&& record.fits()
            &&& 0 <= pos < end <= s.len()
            &&& end == pos + record.size()
            &&& s.subrange(pos, end) == record.bytes()
        }),
{
    reveal(parse_record);
    let (record, end) = parse_record(s, pos).unwrap();
    lemma_record_len(record);
    lemma_u64_bytes_parse(s, pos + 1);
    lemma_authorities_bytes_parse(s, pos + 9);
    assert(s.subrange(pos, pos + 1) =~= seq![plugin_tag(record.plugin_type)]);
    lemma_join_at(s, pos, pos + 1, pos + 9);
    lemma_join_at(s, pos, pos + 9, end);
}

impl RegistryRecord {
    /// Appends the encoding of the record to `out`, or leaves `out` as it
    /// was and returns `false` when the record has too many authorities.
    pub fn put(&self, out: &mut Vec<u8>) -> (done: bool)
        ensures
            done == self@.fits(),
            done ==> final(out)@ == old(out)@ + self@.bytes(),
            !done ==> final(out)@ == old(out)@,
    {
        let mut bytes: Vec<u8> = Vec::new();
        bytes.push(self.plugin_type.tag());
        put_u64(&mut bytes, self.offset as u64);
        if !put_authorities(&mut bytes, &self.authorities) {
            return false;
        }
        assert(bytes@ =~= self@.bytes());
        out.append(&mut bytes);
        true
    }

    /// Reads a registry record at `pos`.
    pub fn get(buffer: &Vec<u8>, pos: usize) -> (r: Option<(RegistryRecord, usize)>)
        ensures
            match r {
                Some((record, end)) => parse_record(buffer@, pos as int) == Some(
                    (record@, end as int),
                ),
                None => parse_record(buffer@, pos as int) is None,
            },
    {
        proof {
            reveal(parse_record);
        }
        if pos >= buffer.len() {
            return None;
        }
        let plugin_type = match PluginType::from_tag(buffer[pos]) {
            Some(plugin_type) => plugin_type,
            None => { return None; },
        };
        let (offset, stop1) = match get_u64(buffer, pos + 1) {
            Some(pair) => pair,
            None => { return None; },
        };
        if offset > usize::MAX as u64 {
            return None;
        }
        let (authorities, end) = match get_authorities(buffer, stop1) {
            Some(pair) => pair,
            None => { return None; },
        };
        Some((RegistryRecord { plugin_type, offset: offset as usize, authorities }, end))
    }
}

/// The plugin header: the record that says where the registry begins. Its
/// encoding has nine bytes: a key byte and the offset.
#[derive(Clone, Copy, Debug, PartialEq, Eq, Structural, Hash)]
pub struct PluginHeader {
    /// The position of the registry's first byte in the buffer.
    pub plugin_registry_offset: usize,
}

/// The encoding of a plugin header that points at `offset`.
pub open spec fn header_bytes(offset: int) -> Seq<u8> {
    seq![KEY_PLUGIN_HEADER] + u64_bytes(offset as u64)
}

/// Reads a plugin header at `pos`; the first component is the registry
/// offset it records.
#[verifier::opaque]
pub open spec fn parse_header(s: Seq<u8>, pos: int) -> Option<(int, int)> {
    if 0 <= pos < s.len() && s[pos] == KEY_PLUGIN_HEADER {
        match parse_u64(s, pos + 1) {
            Some((offset, end)) => if offset <= usize::MAX {
                Some((offset as int, end))
            } else {
                None
            },
            None => None,
        }
    } else {
        None
    }
}

/// Reading what `header_bytes` printed gives the offset back.
pub proof fn lemma_parse_header_bytes(s: Seq<u8>, pos: int, offset: int)
    requires
        0 <= pos,
        0 <= offset <= usize::MAX,
        pos + 9 <= s.len(),
        s.subrange(pos, pos + 9) == header_bytes(offset),
    ensures
        parse_header(s, pos) == Some((offset, pos + 9)),
        header_bytes(offset).len() == 9,
{
    reveal(parse_header);
    lemma_int_bytes_len(0, offset as u64);
    lemma_split_at(s, pos, seq![KEY_PLUGIN_HEADER], u64_bytes(offset as u64));
    assert(s.subrange(pos, pos + 1)[0] == s[pos]);
    lemma_parse_u64_bytes(s, pos + 1, offset as u64);
}

/// What `parse_header` read is the printing of its result.
pub proof fn lemma_header_bytes_parse(s: Seq<u8>, pos: int)
    requires
        parse_header(s, pos) is Some,
    ensures
        ({
            let (offset, end) = parse_header(s, pos).unwrap();
            &&& 0 <= offset <= usize::MAX
            &&& 0 <= pos
            &&& end == pos + 9
            &&& end <= s.len()
            &&& s.subrange(pos, end) == header_bytes(offset)
        }),
{
    reveal(parse_header);
    lemma_u64_bytes_parse(s, pos + 1);
    assert(s.subrange(pos, pos + 1) =~= seq![KEY_PLUGIN_HEADER]);
    lemma_join_at(s, pos, pos + 1, pos + 9);
}

impl PluginHeader {
    /// Appends the encoding of the header to `out`.
    pub fn put(&self, out: &mut Vec<u8>)
        ensures
            final(out)@ == old(out)@ + header_bytes(self.plugin_registry_offset as int),
    {
        out.push(KEY_PLUGIN_HEADER);
        put_u64(out, self.plugin_registry_offset as u64);
        assert(out@ =~= old(out)@ + header_bytes(self.plugin_registry_offset as int));
    }

    /// Reads a plugin header at `pos`.
    pub fn get(buffer: &Vec<u8>, pos: usize) -> (r: Option<(PluginHeader, usize)>)
        ensures
            match r {
                Some((header, end)) => parse_header(buffer@, pos as int) == Some(
                    (header.plugin_registry_offset as int, end as int),
                ),
                None => parse_header(buffer@, pos as int) is None,
            },
    {
        proof {
            reveal(parse_header);
        }
        if pos >= buffer.len() || buffer[pos] != KEY_PLUGIN_HEADER {
            return None;
        }
        match get_u64(buffer, pos + 1) {
            Some((offset, end)) => {
                if offset > usize::MAX as u64 {
                    None
                } else {
                    Some((PluginHeader { plugin_registry_offset: offset as usize }, end))
                }
            },
            None => None,
        }
    }
}

/// The encodings of `records`, one after the other.
pub open spec fn records_flat(records: Seq<RecordView>) -> Seq<u8>
    decreases records.len(),
{
    if records.len() == 0 {
        Seq::empty()
    } else {
        records_flat(records.drop_last()) + records.last().bytes()
    }
}

/// Every record can be encoded, and so can their number.
pub open spec fn records_fit(records: Seq<RecordView>) -> bool {
    &&& records.len() <= u32::MAX
    &&& forall|i: int| 0 <= i < records.len() ==> (#[trigger] records[i]).fits()
}

/// The encoding of a registry: its key byte, the number of its records, then
/// the records in their order.
pub open spec fn registry_bytes(records: Seq<RecordView>) -> Seq<u8> {
    seq![KEY_PLUGIN_REGISTRY] + u32_bytes(records.len() as u32) + records_flat(records)
}

/// Number of bytes of an encoded registry.
pub open spec fn registry_len(records: Seq<RecordView>) -> int {
    5 + records_flat(records).len() as int
}

/// Reads `n` records, one after the other, from `pos` on.
pub open spec fn parse_records_n(s: Seq<u8>, pos: int, n: nat) -> Option<(Seq<RecordView>, int)>
    decreases n,
{
    if n == 0 {
        if 0 <= pos <= s.len() {
            Some((Seq::empty(), pos))
        } else {
            None
        }
    } else {
        match parse_records_n(s, pos, (n - 1) as nat) {
            Some((records, mid)) => match parse_record(s, mid) {
                Some((record, end)) => Some((records.push(record), end)),
                None => None,
            },
            None => None,
        }
    }
}

/// Reads a registry at `pos`.
#[verifier::opaque]
pub open spec fn parse_registry(s: Seq<u8>, pos: int) -> Option<(Seq<RecordView>, int)> {
    if 0 <= pos < s.len() && s[pos] == KEY_PLUGIN_REGISTRY {
        match parse_u32(s, pos + 1) {
            Some((n, start)) => parse_records_n(s, start, n as nat),
            None => None,
        }
    } else {
        None
    }
}

/// Adding a record to a registry appends its encoding.
pub proof fn lemma_records_flat_push(records: Seq<RecordView>, record: RecordView)
    ensures
        records_flat(records.push(record)) == records_flat(records) + record.bytes(),
{
    assert(records.push(record).drop_last() =~= records);
}

/// Reading what `records_flat` printed gives the records back.
pub proof fn lemma_parse_records_flat(s: Seq<u8>, pos: int, records: Seq<RecordView>)
    requires
        0 <= pos,
        forall|i: int| 0 <= i < records.len() ==> (#[trigger] records[i]).fits(),
        pos + records_flat(records).len() <= s.len(),
        s.subrange(pos, pos + records_flat(records).len()) == records_flat(records),
    ensures
        parse_records_n(s, pos, records.len()) == Some(
            (records, pos + records_flat(records).len()),
        ),
    decreases records.len(),
{
    if records.len() > 0 {
        let front = records.drop_last();
        let last = records.last();
        lemma_record_len(last);
        lemma_split_at(s, pos, records_flat(front), last.bytes());
        lemma_parse_records_flat(s, pos, front);
        lemma_parse_record_bytes(s, pos + records_flat(front).len(), last);
        assert(front.push(last) =~= records);
    }
}

/// What `parse_records_n` read is the printing of its result.
pub proof fn lemma_records_flat_parse(s: Seq<u8>, pos: int, n: nat)
    requires
        parse_records_n(s, pos, n) is Some,
    ensures
        ({
            let (records, end) = parse_records_n(s, pos, n).unwrap();
            &&& records.len() == n
            &&& forall|i: int| 0 <= i < records.len() ==> (#[trigger] records[i]).fits()
            &&& 0 <= pos <= end <= s.len()
            &&& end == pos + records_flat(records).len()
            &&& s.subrange(pos, end) == records_flat(records)
        }),
    decreases n,
{
    if n == 0 {
        assert(s.subrange(pos, pos) =~= Seq::<u8>::empty());
    } else {
        let (front, mid) = parse_records_n(s, pos, (n - 1) as nat).unwrap();
        let (record, end) = parse_record(s, mid).unwrap();
        lemma_records_flat_parse(s, pos, (n - 1) as nat);
        lemma_record_bytes_parse(s, mid);
        lemma_records_flat_push(front, record);
        lemma_join_at(s, pos, mid, end);
    }
}

/// Once the first `k` records cannot be read, no larger number can.
pub proof fn lemma_records_none_extends(s: Seq<u8>, pos: int, k: nat, n: nat)
    requires
        k <= n,
        parse_records_n(s, pos, k) is None,
    ensures
        parse_records_n(s, pos, n) is None,
    decreases n,
{
    if k < n {
        lemma_records_none_extends(s, pos, k, (n - 1) as nat);
    }
}

/// The printed length of a registry.
pub proof fn lemma_registry_len(records: Seq<RecordView>)
    ensures
        registry_bytes(records).len() == registry_len(records),
        registry_len(records) >= 5,
{
    lemma_int_bytes_len(records.len() as u32, 0);
}

/// Reading what `registry_bytes` printed gives the registry back.
pub proof fn lemma_parse_registry_bytes(s: Seq<u8>, pos: int, records: Seq<RecordView>)
    requires
        0 <= pos,
        records_fit(records),
        pos + registry_len(records) <= s.len(),
        s.subrange(pos, pos + registry_len(records)) == registry_bytes(records),
    ensures
        parse_registry(s, pos) == Some((records, pos + registry_len(records))),
{
    reveal(parse_registry);
    let n = records.len() as u32;
    lemma_int_bytes_len(n, 0);
    lemma_split_at(s, pos, seq![KEY_PLUGIN_REGISTRY] + u32_bytes(n), records_flat(records));
    lemma_split_at(s, pos, seq![KEY_PLUGIN_REGISTRY], u32_bytes(n));
    assert(s.subrange(pos, pos + 1)[0] == s[pos]);
    lemma_parse_u32_bytes(s, pos + 1, n);
    lemma_parse_records_flat(s, pos + 5, records);
}

/// What `parse_registry` read is the printing of its result.
pub proof fn lemma_registry_bytes_parse(s: Seq<u8>, pos: int)
    requires
        parse_registry(s, pos) is Some,
    ensures
        ({
            let (records, end) = parse_registry(s, pos).unwrap();
            &&& records_fit(records)
            &&& 0 <= pos < end <= s.len()
            &&& end == pos + registry_len(records)
            &&& s.subrange(pos, end) == registry_bytes(records)
        }),
{
    reveal(parse_registry);
    let (n, start) = parse_u32(s, pos + 1).unwrap();
    lemma_u32_bytes_parse(s, pos + 1);
    lemma_records_flat_parse(s, start, n as nat);
    let (records, end) = parse_registry(s, pos).unwrap();
    assert(s.subrange(pos, pos + 1) =~= seq![KEY_PLUGIN_REGISTRY]);
    lemma_join_at(s, pos, pos + 1, start);
    lemma_join_at(s, pos, start, end);
}

/// The plugin registry: one record for each attached plugin, in the order
/// in which the plugins were attached.
#[derive(Clone, Debug, PartialEq, Eq)]
pub struct PluginRegistry {
    /// The records, oldest attachment first.
    pub registry: Vec<RegistryRecord>,
}

/// The mathematical value of a vector of records.
pub open spec fn records_view(records: Seq<RegistryRecord>) -> Seq<RecordView> {
    Seq::new(records.len(), |i: int| records[i]@)
}

/// The value of a vector with one more record is the value with one more record.
pub proof fn lemma_records_view_push(records: Seq<RegistryRecord>, record: RegistryRecord)
    ensures
        records_view(records.push(record)) == records_view(records).push(record@),
{
    assert(records_view(records.push(record)) =~= records_view(records).push(record@));
}

impl View for PluginRegistry {
    type V = Seq<RecordView>;

    open spec fn view(&self) -> Seq<RecordView> {
        records_view(self.registry@)
    }
}

/// The index of the first record of kind `plugin_type`, if there is one.
pub open spec fn position_of(records: Seq<RecordView>, plugin_type: PluginType) -> Option<int>
    decreases records.len(),
{
    if records.len() == 0 {
        None
    } else {
        match position_of(records.drop_last(), plugin_type) {
            Some(i) => Some(i),
            None => if records.last().plugin_type == plugin_type {
                Some(records.len() - 1)
            } else {
                None
            },
        }
    }
}

/// `position_of` finds the first record of the kind, and finds one whenever
/// there is one.
pub proof fn lemma_position_of(records: Seq<RecordView>, plugin_type: PluginType)
    ensures
        match position_of(records, plugin_type) {
            Some(i) => {
                &&& 0 <= i < records.len()
                &&& records[i].plugin_type == plugin_type
                &&& forall|j: int| 0 <= j < i ==> (#[trigger] records[j]).plugin_type != plugin_type
            },
            None => forall|j: int|
                0 <= j < records.len() ==> (#[trigger] records[j]).plugin_type != plugin_type,
        },
    decreases records.len(),
{
    if records.len() > 0 {
        let front = records.drop_last();
        lemma_position_of(front, plugin_type);
        assert(forall|j: int| 0 <= j < front.len() ==> front[j] == records[j]);
    }
}

/// No two records are of one kind.
pub open spec fn kinds_unique(records: Seq<RecordView>) -> bool {
    forall|i: int, j: int|
        0 <= i < j < records.len() ==> (#[trigger] records[i]).plugin_type != (
        #[trigger] records[j]).plugin_type
}

impl PluginRegistry {
    /// The index of the record of kind `plugin_type`, if one is there.
    pub fn position(&self, plugin_type: PluginType) -> (index: Option<usize>)
        ensures
            match index {
                Some(i) => i < self.registry.len() && position_of(self@, plugin_type) == Some(
                    i as int,
                ),
                None => position_of(self@, plugin_type) is None,
            },
    {
        let mut i: usize = 0;
        while i < self.registry.len()
            invariant
                i <= self.registry.len(),
                forall|j: int| 0 <= j < i ==> (#[trigger] self@[j]).plugin_type != plugin_type,
            decreases self.registry.len() - i,
        {
            if self.registry[i].plugin_type == plugin_type {
                proof {
                    lemma_position_of(self@, plugin_type);
                    assert(self@[i as int].plugin_type == plugin_type);
                    let found = position_of(self@, plugin_type);
                    assert(found is Some);
                    assert(self@[found.unwrap()].plugin_type == plugin_type);
                }
                return Some(i);
            }
            i += 1;
        }
        proof {
            lemma_position_of(self@, plugin_type);
        }
        None
    }

    /// Whether no two records are of one kind.
    pub fn has_unique_kinds(&self) -> (unique: bool)
        ensures
            unique == kinds_unique(self@),
    {
        let mut j: usize = 0;
        while j < self.registry.len()
            invariant
                j <= self.registry.len(),
                forall|a: int, b: int|
                    0 <= a < b < j ==> (#[trigger] self@[a]).plugin_type != (
                    #[trigger] self@[b]).plugin_type,
            decreases self.registry.len() - j,
        {
            let mut i: usize = 0;
            while i < j
                invariant
                    i <= j < self.registry.len(),
                    forall|a: int|
                        0 <= a < i ==> (#[trigger] self@[a]).plugin_type != self@[j as int].plugin_type,
                decreases j - i,
            {
                if self.registry[i].plugin_type == self.registry[j].plugin_type {
                    assert(self@[i as int].plugin_type == self@[j as int].plugin_type);
                    return false;
                }
                i += 1;
            }
            j += 1;
        }
        true
    }

    /// Where the plugin of kind `plugin_type` lies and who governs it, if
    /// such a plugin is attached.
    pub fn find(&self, plugin_type: PluginType) -> (found: Option<(usize, Vec<Authority>)>)
        ensures
            match found {
                Some((offset, authorities)) => {
                    &&& position_of(self@, plugin_type) is Some
                    &&& offset == self@[position_of(self@, plugin_type).unwrap()].offset
                    &&& authorities@ == self@[position_of(
                        self@,
                        plugin_type,
                    ).unwrap()].authorities
                },
                None => position_of(self@, plugin_type) is None,
            },
    {
        match self.position(plugin_type) {
            Some(i) => {
                let record = &self.registry[i];
                Some((record.offset, copy_authorities(&record.authorities)))
            },
            None => None,
        }
    }

    /// Adds `record` at the end of the registry. Fails with `InvalidState`,
    /// and changes nothing, when a record of that kind is already there.
    pub fn insert(&mut self, record: RegistryRecord) -> (r: Result<(), CoreError>)
        ensures
            match position_of(old(self)@, record.plugin_type) {
                Some(_) => r == Err::<(), CoreError>(CoreError::InvalidState) && final(self)@
                    == old(self)@,
                None => r is Ok && final(self)@ == old(self)@.push(record@),
            },
    {
        if self.position(record.plugin_type).is_some() {
            return Err(CoreError::InvalidState);
        }
        proof {
            lemma_records_view_push(self.registry@, record);
        }
        self.registry.push(record);
        Ok(())
    }

    /// Takes the record of kind `plugin_type` out of the registry; the
    /// records that remain keep their order. Fails with `NotFound`, and
    /// changes nothing, when no record of that kind is there.
    pub fn remove(&mut self, plugin_type: PluginType) -> (r: Result<RegistryRecord, CoreError>)
        ensures
            match position_of(old(self)@, plugin_type) {
                Some(i) => r is Ok && r.unwrap()@ == old(self)@[i] && final(self)@ == old(
                    self,
                )@.remove(i),
                None => r is Err && r.unwrap_err() == CoreError::NotFound && final(self)@ == old(
                    self,
                )@,
            },
    {
        match self.position(plugin_type) {
            Some(i) => {
                let ghost before = self.registry@;
                let record = self.registry.remove(i);
                proof {
                    assert(records_view(self.registry@) =~= records_view(before).remove(i as int));
                }
                Ok(record)
            },
            None => Err(CoreError::NotFound),
        }
    }

    /// Appends the encoding of the registry to `out`, or leaves `out` as it
    /// was and returns `false` when a record or the number of records cannot
    /// be encoded.
    pub fn put(&self, out: &mut Vec<u8>) -> (done: bool)
        ensures
            done == records_fit(self@),
            done ==> final(out)@ == old(out)@ + registry_bytes(self@),
            !done ==> final(out)@ == old(out)@,
    {
        if self.registry.len() > u32::MAX as usize {
            return false;
        }
        let mut bytes: Vec<u8> = Vec::new();
        bytes.push(KEY_PLUGIN_REGISTRY);
        put_u32(&mut bytes, self.registry.len() as u32);
        let ghost start = bytes@;
        let mut i: usize = 0;
        while i < self.registry.len()
            invariant
                i <= self.registry.len(),
                bytes@ == start + records_flat(self@.take(i as int)),
                forall|j: int| 0 <= j < i ==> (#[trigger] self@[j]).fits(),
            decreases self.registry.len() - i,
        {
            if !self.registry[i].put(&mut bytes) {
                assert(!self@[i as int].fits());
                return false;
            }
            proof {
                lemma_records_flat_push(self@.take(i as int), self@[i as int]);
                assert(self@.take(i as int).push(self@[i as int]) =~= self@.take(i + 1));
                assert(bytes@ =~= start + records_flat(self@.take(i + 1)));
            }
            i += 1;
        }
        proof {
            assert(self@.take(self@.len() as int) =~= self@);
            assert(bytes@ =~= registry_bytes(self@));
        }
        out.append(&mut bytes);
        true
    }

    /// Reads a registry at `pos`.
    pub fn get(buffer: &Vec<u8>, pos: usize) -> (r: Option<(PluginRegistry, usize)>)
        ensures
            match r {
                Some((registry, end)) => parse_registry(buffer@, pos as int) == Some(
                    (registry@, end as int),
                ),
                None => parse_registry(buffer@, pos as int) is None,
            },
    {
        proof {
            reveal(parse_registry);
        }
        if pos >= buffer.len() || buffer[pos] != KEY_PLUGIN_REGISTRY {
            return None;
        }
        let (n, start) = match get_u32(buffer, pos + 1) {
            Some(pair) => pair,
            None => { return None; },
        };
        let mut registry: Vec<RegistryRecord> = Vec::new();
        let mut at: usize = start;
        let mut i: u32 = 0;
        while i < n
            invariant
                i <= n,
                parse_u32(buffer@, pos + 1) == Some((n, start as int)),
                parse_records_n(buffer@, start as int, i as nat) == Some(
                    (records_view(registry@), at as int),
                ),
            decreases n - i,
        {
            match RegistryRecord::get(buffer, at) {
                Some((record, end)) => {
                    proof {
                        assert(records_view(registry@).push(record@) =~= records_view(
                            registry@.push(record),
                        ));
                    }
                    registry.push(record);
                    at = end;
                },
                None => {
                    proof {
                        reveal(parse_registry);
                        assert(parse_records_n(buffer@, start as int, (i + 1) as nat) is None);
                        lemma_records_none_extends(buffer@, start as int, (i + 1) as nat, n as nat);
                    }
                    return None;
                },
            }
            i += 1;
        }
        proof {
            reveal(parse_registry);
        }
        Some((PluginRegistry { registry }, at))
    }
}

/// A copy of an authority set.
pub fn copy_authorities(items: &Vec<Authority>) -> (copy: Vec<Authority>)
    ensures
        copy@ == items@,
{
    let mut copy: Vec<Authority> = Vec::new();
    let mut i: usize = 0;
    while i < items.len()
        invariant
            i <= items.len(),
            copy@ == items@.take(i as int),
        decreases items.len() - i,
    {
        copy.push(items[i]);
        assert(copy@ =~= items@.take(i + 1));
        i += 1;
    }
    assert(items@.take(items@.len() as int) =~= items@);
    copy
}

} // verus!
