//! The closed set of plugins, their encodings, and the vote each casts on a
//! lifecycle event.

pub mod delegate;
pub mod edition;
pub mod royalties;

use crate::codec::get_u32;
use crate::codec::lemma_int_bytes_len;
use crate::codec::lemma_join_at;
use crate::codec::lemma_parse_u32_bytes;
use crate::codec::lemma_split_at;
use crate::codec::lemma_u32_bytes_parse;
use crate::codec::parse_u32;
use crate::codec::put_u32;
use crate::codec::u32_bytes;
use crate::error::CoreError;
use crate::plugins::delegate::Delegate;
use crate::plugins::edition::Edition;
use crate::plugins::royalties::Royalties;
use crate::state::get_pubkey;
use crate::state::lemma_parse_pubkey_bytes;
use crate::state::lemma_pubkey_bytes_parse;
use crate::state::lemma_pubkey_len;
use crate::state::parse_pubkey;
use crate::state::pubkey_bytes;
use crate::state::put_pubkey;
use crate::state::Authority;
use crate::state::Pubkey;
use vstd::prelude::*;

verus! {

/// What a participant may do to an operation.
#[derive(Clone, Copy, Debug, PartialEq, Eq, Structural, Hash)]
pub enum CheckResult {
    /// The participant votes on the event and may approve it.
    CanApprove,
    /// The participant votes on the event and may reject it.
    CanReject,
    /// The participant has no say on the event.
    NoVote,
}

/// The vote of one participant.
#[derive(Clone, Copy, Debug, PartialEq, Eq, Structural, Hash)]
pub enum ValidationResult {
    /// The participant allows the operation.
    Approved,
    /// The participant forbids the operation.
    Rejected,
    /// The participant abstains.
    Pass,
}

/// The operations that change an entity and therefore need a decision.
#[derive(Clone, Copy, Debug, PartialEq, Eq, Structural, Hash)]
pub enum Event {
    AddPlugin,
    RemovePlugin,
    UpdatePlugin,
    ApprovePluginAuthority,
    RevokePluginAuthority,
    Update,
    Transfer,
    Burn,
    Compress,
    Decompress,
}

/// The kinds of plugin; an entity holds at most one plugin of each kind.
#[derive(Clone, Copy, Debug, PartialEq, Eq, Structural, Hash)]
pub enum PluginType {
    Royalties,
    Delegate,
    Edition,
}

/// A plugin with its state.
#[derive(Clone, Copy, Debug, PartialEq, Eq, Structural, Hash)]
pub enum Plugin {
    Royalties(Royalties),
    Delegate(Delegate),
    Edition(Edition),
}

/// What a plugin is told when it is asked for its vote.
#[derive(Clone, Copy, Debug)]
pub struct PluginValidationContext<'a> {
    /// The authorities configured for the plugin that votes.
    pub self_authorities: &'a Vec<Authority>,
    /// The actor that asks for the operation.
    pub authority: Pubkey,
    /// The plugin the operation is about, if it is about one.
    pub target_plugin: Option<Plugin>,
}

/// The mathematical value of a validation context.
pub struct ContextView {
    pub self_authorities: Seq<Authority>,
    pub authority: Pubkey,
    pub target_plugin: Option<Plugin>,
}

impl<'a> View for PluginValidationContext<'a> {
    type V = ContextView;

    open spec fn view(&self) -> ContextView {
        ContextView {
            self_authorities: self.self_authorities@,
            authority: self.authority,
            target_plugin: self.target_plugin,
        }
    }
}

impl ContextView {
    /// The actor is named, by address, among the voting plugin's own authorities.
    pub open spec fn actor_is_self_authority(self) -> bool {
        self.self_authorities.contains(Authority::Address { address: self.authority })
    }
}

/// Whether `authority` occurs in `authorities`.
pub fn contains_authority(authorities: &Vec<Authority>, authority: &Authority) -> (found: bool)
    ensures
        found == authorities@.contains(*authority),
{
    let mut i: usize = 0;
    while i < authorities.len()
        invariant
            i <= authorities.len(),
            forall|j: int| 0 <= j < i ==> authorities@[j] != *authority,
        decreases authorities.len() - i,
    {
        if authorities[i] == *authority {
            return true;
        }
        i += 1;
    }
    false
}

impl<'a> PluginValidationContext<'a> {
    /// Whether the actor is named, by address, among the voting plugin's own
    /// authorities.
    pub fn actor_is_self_authority(&self) -> (r: bool)
        ensures
            r == self@.actor_is_self_authority(),
    {
        contains_authority(self.self_authorities, &Authority::Address { address: self.authority })
    }
}

/// The tag byte of each kind of plugin. No tag equals the first byte of a
/// plugin header, so the end of the plugin data can be told from its bytes.
pub open spec fn plugin_tag(plugin_type: PluginType) -> u8 {
    match plugin_type {
        PluginType::Royalties => 0,
        PluginType::Delegate => 1,
        PluginType::Edition => 2,
    }
}

impl PluginType {
    /// The kind of `plugin`.
    pub open spec fn spec_of(plugin: Plugin) -> PluginType {
        match plugin {
            Plugin::Royalties(_) => PluginType::Royalties,
            Plugin::Delegate(_) => PluginType::Delegate,
            Plugin::Edition(_) => PluginType::Edition,
        }
    }

    /// The kind of `plugin`.
    pub fn of(plugin: &Plugin) -> (plugin_type: PluginType)
        ensures
            plugin_type == Self::spec_of(*plugin),
    {
        match plugin {
            Plugin::Royalties(_) => PluginType::Royalties,
            Plugin::Delegate(_) => PluginType::Delegate,
            Plugin::Edition(_) => PluginType::Edition,
        }
    }

    /// The tag byte of this kind.
    pub fn tag(&self) -> (tag: u8)
        ensures
            tag == plugin_tag(*self),
    {
        match self {
            PluginType::Royalties => 0,
            PluginType::Delegate => 1,
            PluginType::Edition => 2,
        }
    }

    /// The kind with tag byte `tag`, if there is one.
    pub open spec fn spec_from_tag(tag: u8) -> Option<PluginType> {
        if tag == 0 {
            Some(PluginType::Royalties)
        } else if tag == 1 {
            Some(PluginType::Delegate)
        } else if tag == 2 {
            Some(PluginType::Edition)
        } else {
            None
        }
    }

    /// The kind with tag byte `tag`, if there is one.
    pub fn from_tag(tag: u8) -> (plugin_type: Option<PluginType>)
        ensures
            plugin_type == Self::spec_from_tag(tag),
    {
        if tag == 0 {
            Some(PluginType::Royalties)
        } else if tag == 1 {
            Some(PluginType::Delegate)
        } else if tag == 2 {
            Some(PluginType::Edition)
        } else {
            None
        }
    }

    /// The authority a plugin of this kind has when none is named: the
    /// holder for a delegate, the update authority for the others.
    pub open spec fn spec_manager(self) -> Authority {
        match self {
            PluginType::Royalties => Authority::UpdateAuthority,
            PluginType::Delegate => Authority::Owner,
            PluginType::Edition => Authority::UpdateAuthority,
        }
    }

    /// The authority a plugin of this kind has when none is named.
    pub fn manager(&self) -> (authority: Authority)
        ensures
            authority == self.spec_manager(),
    {
        match self {
            PluginType::Royalties => Authority::UpdateAuthority,
            PluginType::Delegate => Authority::Owner,
            PluginType::Edition => Authority::UpdateAuthority,
        }
    }

    /// Whether plugins of this kind vote on `event`.
    pub open spec fn spec_check(self, event: Event) -> CheckResult {
        match self {
            PluginType::Royalties => Royalties::spec_check(event),
            PluginType::Delegate => Delegate::spec_check(event),
            PluginType::Edition => Edition::spec_check(event),
        }
    }

    /// Whether plugins of this kind vote on `event`.
    pub fn check(&self, event: Event) -> (r: CheckResult)
        ensures
            r == self.spec_check(event),
    {
        match self {
            PluginType::Royalties => Royalties::check(event),
            PluginType::Delegate => Delegate::check(event),
            PluginType::Edition => Edition::check(event),
        }
    }
}

/// The byte that encodes a flag.
pub open spec fn flag_byte(flag: bool) -> u8 {
    if flag {
        1
    } else {
        0
    }
}

impl From<&Plugin> for PluginType {
    /// The kind of `plugin`.
    fn from(plugin: &Plugin) -> (plugin_type: PluginType) {
        PluginType::of(plugin)
    }
}

impl vstd::std_specs::convert::FromSpecImpl<&Plugin> for PluginType {
    open spec fn obeys_from_spec() -> bool {
        true
    }

    open spec fn from_spec(plugin: &Plugin) -> PluginType {
        PluginType::spec_of(*plugin)
    }
}

/// The encoding of a plugin: its tag byte, then its state.
#[verifier::opaque]
pub open spec fn plugin_bytes(plugin: Plugin) -> Seq<u8> {
    match plugin {
        Plugin::Royalties(royalties) => seq![0u8] + u32_bytes(royalties.basis_points)
            + pubkey_bytes(royalties.creator) + seq![
            royalties.percentage,
            flag_byte(royalties.enforced),
            flag_byte(royalties.primary_sale_happened),
        ],
        Plugin::Delegate(delegate) => seq![1u8, flag_byte(delegate.frozen)],
        Plugin::Edition(edition) => seq![2u8] + u32_bytes(edition.number),
    }
}

/// Number of bytes of an encoded plugin.
pub open spec fn plugin_len(plugin: Plugin) -> int {
    match plugin {
        Plugin::Royalties(_) => 40,
        Plugin::Delegate(_) => 2,
        Plugin::Edition(_) => 5,
    }
}

/// Reads a plugin at `pos`.
#[verifier::opaque]
pub open spec fn parse_plugin(s: Seq<u8>, pos: int) -> Option<(Plugin, int)> {
    if 0 <= pos < s.len() {
        if s[pos] == 0 {
            if pos + 40 <= s.len() && s[pos + 38] <= 1 && s[pos + 39] <= 1 {
                Some(
                    (
                        Plugin::Royalties(
                            Royalties {
                                basis_points: parse_u32(s, pos + 1).unwrap().0,
                                creator: parse_pubkey(s, pos + 5).unwrap().0,
                                percentage: s[pos + 37],
                                enforced: s[pos + 38] == 1,
                                primary_sale_happened: s[pos + 39] == 1,
                            },
                        ),
                        pos + 40,
                    ),
                )
            } else {
                None
            }
        } else if s[pos] == 1 {
            if pos + 2 <= s.len() && s[pos + 1] <= 1 {
                Some((Plugin::Delegate(Delegate { frozen: s[pos + 1] == 1 }), pos + 2))
            } else {
                None
            }
        } else if s[pos] == 2 {
            match parse_u32(s, pos + 1) {
                Some((number, end)) => Some((Plugin::Edition(Edition { number }), end)),
                None => None,
            }
        } else {
            None
        }
    } else {
        None
    }
}

/// An encoded plugin has `plugin_len` bytes, at least two, and begins with
/// the tag of its kind.
pub proof fn lemma_plugin_len(plugin: Plugin)
    ensures
        plugin_bytes(plugin).len() == plugin_len(plugin),
        2 <= plugin_len(plugin) <= 40,
        plugin_bytes(plugin)[0] == plugin_tag(PluginType::spec_of(plugin)),
{
    reveal(plugin_bytes);
    match plugin {
        Plugin::Royalties(royalties) => {
            lemma_int_bytes_len(royalties.basis_points, 0);
            lemma_pubkey_len(royalties.creator);
        },
        Plugin::Delegate(_) => {},
        Plugin::Edition(edition) => {
            lemma_int_bytes_len(edition.number, 0);
        },
    }
}

/// No plugin can be read where a plugin header begins: the key byte of the
/// header is the tag of no kind.
pub proof fn lemma_header_is_no_plugin(s: Seq<u8>, pos: int)
    requires
        0 <= pos < s.len(),
        s[pos] == crate::state::KEY_PLUGIN_HEADER,
    ensures
        parse_plugin(s, pos) is None,
{
    reveal(parse_plugin);
}

/// Reading what `plugin_bytes` printed gives the plugin back.
pub proof fn lemma_parse_plugin_bytes(s: Seq<u8>, pos: int, plugin: Plugin)
    requires
        0 <= pos,
        pos + plugin_len(plugin) <= s.len(),
        s.subrange(pos, pos + plugin_len(plugin)) == plugin_bytes(plugin),
    ensures
        parse_plugin(s, pos) == Some((plugin, pos + plugin_len(plugin))),
{
    reveal(plugin_bytes);
    reveal(parse_plugin);
    lemma_plugin_len(plugin);
    let whole = s.subrange(pos, pos + plugin_len(plugin));
    assert(whole[0] == s[pos]);
    match plugin {
        Plugin::Royalties(royalties) => {
            lemma_int_bytes_len(royalties.basis_points, 0);
            lemma_pubkey_len(royalties.creator);
            let head = seq![0u8] + u32_bytes(royalties.basis_points);
            let flags = seq![
                royalties.percentage,
                flag_byte(royalties.enforced),
                flag_byte(royalties.primary_sale_happened),
            ];
            lemma_split_at(s, pos, head + pubkey_bytes(royalties.creator), flags);
            lemma_split_at(s, pos, head, pubkey_bytes(royalties.creator));
            lemma_split_at(s, pos, seq![0u8], u32_bytes(royalties.basis_points));
            lemma_parse_u32_bytes(s, pos + 1, royalties.basis_points);
            lemma_parse_pubkey_bytes(s, pos + 5, royalties.creator);
            assert(s.subrange(pos + 37, pos + 40)[0] == s[pos + 37]);
            assert(s.subrange(pos + 37, pos + 40)[1] == s[pos + 38]);
            assert(s.subrange(pos + 37, pos + 40)[2] == s[pos + 39]);
        },
        Plugin::Delegate(delegate) => {
            assert(whole[1] == s[pos + 1]);
        },
        Plugin::Edition(edition) => {
            lemma_split_at(s, pos, seq![2u8], u32_bytes(edition.number));
            lemma_parse_u32_bytes(s, pos + 1, edition.number);
        },
    }
}

/// What `parse_plugin` read is the printing of its result.
pub proof fn lemma_plugin_bytes_parse(s: Seq<u8>, pos: int)
    requires
        parse_plugin(s, pos) is Some,
    ensures
        ({
            let (plugin, end) = parse_plugin(s, pos).unwrap();
            &&& 0 <= pos < end <= s.len()
            &&& end == pos + plugin_len(plugin)
            &&& s.subrange(pos, end) == plugin_bytes(plugin)
        }),
{
    reveal(plugin_bytes);
    reveal(parse_plugin);
    let (plugin, end) = parse_plugin(s, pos).unwrap();
    match plugin {
        Plugin::Royalties(royalties) => {
            lemma_u32_bytes_parse(s, pos + 1);
            lemma_pubkey_bytes_parse(s, pos + 5);
            assert(s.subrange(pos, pos + 1) =~= seq![0u8]);
            assert(s.subrange(pos + 37, pos + 40) =~= seq![
                royalties.percentage,
                flag_byte(royalties.enforced),
                flag_byte(royalties.primary_sale_happened),
            ]);
            lemma_join_at(s, pos, pos + 1, pos + 5);
            lemma_join_at(s, pos, pos + 5, pos + 37);
            lemma_join_at(s, pos, pos + 37, pos + 40);
        },
        Plugin::Delegate(delegate) => {
            assert(s.subrange(pos, end) =~= plugin_bytes(plugin));
        },
        Plugin::Edition(edition) => {
            lemma_u32_bytes_parse(s, pos + 1);
            lemma_join_at(s, pos, pos + 1, end);
            assert(s.subrange(pos, pos + 1) =~= seq![2u8]);
        },
    }
}

impl Plugin {
    /// Number of bytes of the encoded plugin.
    pub fn size(&self) -> (n: usize)
        ensures
            n == plugin_len(*self),
    {
        match self {
            Plugin::Royalties(_) => 40,
            Plugin::Delegate(_) => 2,
            Plugin::Edition(_) => 5,
        }
    }

    /// Appends the encoding of the plugin to `out`.
    pub fn put(&self, out: &mut Vec<u8>)
        ensures
            final(out)@ == old(out)@ + plugin_bytes(*self),
    {
        proof {
            reveal(plugin_bytes);
        }
        match self {
            Plugin::Royalties(royalties) => {
                out.push(0);
                put_u32(out, royalties.basis_points);
                put_pubkey(out, &royalties.creator);
                out.push(royalties.percentage);
                out.push(if royalties.enforced { 1 } else { 0 });
                out.push(if royalties.primary_sale_happened { 1 } else { 0 });
                assert(out@ =~= old(out)@ + plugin_bytes(*self));
            },
            Plugin::Delegate(delegate) => {
                out.push(1);
                out.push(if delegate.frozen { 1 } else { 0 });
                assert(out@ =~= old(out)@ + plugin_bytes(*self));
            },
            Plugin::Edition(edition) => {
                out.push(2);
                put_u32(out, edition.number);
                assert(out@ =~= old(out)@ + plugin_bytes(*self));
            },
        }
    }

    /// Reads a plugin at `pos`.
    pub fn get(buffer: &Vec<u8>, pos: usize) -> (r: Option<(Plugin, usize)>)
        ensures
            match r {
                Some((plugin, end)) => parse_plugin(buffer@, pos as int) == Some(
                    (plugin, end as int),
                ),
                None => parse_plugin(buffer@, pos as int) is None,
            },
    {
        proof {
            reveal(parse_plugin);
        }
        if pos >= buffer.len() {
            return None;
        }
        let tag: u8 = buffer[pos];
        if tag == 0 {
            if buffer.len() - pos < 40 {
                return None;
            }
            let enforced: u8 = buffer[pos + 38];
            let primary: u8 = buffer[pos + 39];
            if enforced > 1 || primary > 1 {
                return None;
            }
            let (basis_points, _) = get_u32(buffer, pos + 1).unwrap();
            let (creator, _) = get_pubkey(buffer, pos + 5).unwrap();
            Some(
                (
                    Plugin::Royalties(
                        Royalties {
                            basis_points,
                            creator,
                            percentage: buffer[pos + 37],
                            enforced: enforced == 1,
                            primary_sale_happened: primary == 1,
                        },
                    ),
                    pos + 40,
                ),
            )
        } else if tag == 1 {
            if buffer.len() - pos < 2 {
                return None;
            }
            let state: u8 = buffer[pos + 1];
            if state > 1 {
                return None;
            }
            Some((Plugin::Delegate(Delegate { frozen: state == 1 }), pos + 2))
        } else if tag == 2 {
            match get_u32(buffer, pos + 1) {
                Some((number, end)) => Some((Plugin::Edition(Edition { number }), end)),
                None => None,
            }
        } else {
            None
        }
    }

    /// The vote of `self` on `event`.
    pub open spec fn spec_validate(self, event: Event, ctx: ContextView) -> ValidationResult {
        match self {
            Plugin::Royalties(royalties) => royalties.spec_validate(event, ctx),
            Plugin::Delegate(delegate) => delegate.spec_validate(event, ctx),
            Plugin::Edition(edition) => edition.spec_validate(event, ctx),
        }
    }

    /// Asks the plugin for its vote on `event`.
    pub fn validate(&self, event: Event, ctx: &PluginValidationContext) -> (r: Result<
        ValidationResult,
        CoreError,
    >)
        ensures
            r == Ok::<ValidationResult, CoreError>(self.spec_validate(event, ctx@)),
    {
        match self {
            Plugin::Royalties(royalties) => royalties.validate(event, ctx),
            Plugin::Delegate(delegate) => delegate.validate(event, ctx),
            Plugin::Edition(edition) => edition.validate(event, ctx),
        }
    }
}

} // verus!
