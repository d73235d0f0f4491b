//! The core entities (assets and collections), the identities that govern
//! them, and their byte encodings.

use crate::codec::get_string;
use crate::codec::get_u64;
use crate::codec::lemma_parse_string_bytes;
use crate::codec::lemma_string_bytes_len;
use crate::codec::lemma_string_bytes_parse;
use crate::codec::parse_string;
use crate::codec::put_string;
use crate::codec::string_bytes;
use crate::codec::string_fits;
use crate::codec::string_len;
use crate::codec::lemma_int_bytes_len;
use crate::codec::lemma_join_at;
use crate::codec::lemma_parse_u64_bytes;
use crate::codec::lemma_split_at;
use crate::codec::lemma_u64_bytes_parse;
use crate::codec::parse_u64;
use crate::codec::put_u64;
use crate::codec::u64_bytes;
use vstd::prelude::*;

verus! {

/// A 32-byte address, held as four 64-bit words so that two addresses are
/// equal exactly when their fields are. Word `w0` holds the first eight
/// bytes, least significant byte first.
#[derive(Clone, Copy, Debug, PartialEq, Eq, Structural, Hash)]
pub struct Pubkey {
    pub w0: u64,
    pub w1: u64,
    pub w2: u64,
    pub w3: u64,
}

/// The 32 bytes of an address.
pub open spec fn pubkey_bytes(key: Pubkey) -> Seq<u8> {
    u64_bytes(key.w0) + u64_bytes(key.w1) + u64_bytes(key.w2) + u64_bytes(key.w3)
}

/// Reads an address at `pos`.
pub open spec fn parse_pubkey(s: Seq<u8>, pos: int) -> Option<(Pubkey, int)> {
    if 0 <= pos && pos + 32 <= s.len() {
        Some(
            (
                Pubkey {
                    w0: parse_u64(s, pos).unwrap().0,
                    w1: parse_u64(s, pos + 8).unwrap().0,
                    w2: parse_u64(s, pos + 16).unwrap().0,
                    w3: parse_u64(s, pos + 24).unwrap().0,
                },
                pos + 32,
            ),
        )
    } else {
        None
    }
}

/// An encoded address has 32 bytes.
pub proof fn lemma_pubkey_len(key: Pubkey)
    ensures
        pubkey_bytes(key).len() == 32,
{
    lemma_int_bytes_len(0, key.w0);
    lemma_int_bytes_len(0, key.w1);
    lemma_int_bytes_len(0, key.w2);
    lemma_int_bytes_len(0, key.w3);
}

/// Reading what `pubkey_bytes` printed gives the address back.
pub proof fn lemma_parse_pubkey_bytes(s: Seq<u8>, pos: int, key: Pubkey)
    requires
        0 <= pos,
        pos + 32 <= s.len(),
        s.subrange(pos, pos + 32) == pubkey_bytes(key),
    ensures
        parse_pubkey(s, pos) == Some((key, pos + 32)),
{
    lemma_pubkey_len(key);
    lemma_int_bytes_len(0, key.w0);
    lemma_int_bytes_len(0, key.w1);
    lemma_int_bytes_len(0, key.w2);
    lemma_int_bytes_len(0, key.w3);
    let a = u64_bytes(key.w0);
    let b = u64_bytes(key.w1);
    let c = u64_bytes(key.w2);
    let d = u64_bytes(key.w3);
    lemma_split_at(s, pos, a + b + c, d);
    lemma_split_at(s, pos, a + b, c);
    lemma_split_at(s, pos, a, b);
    lemma_parse_u64_bytes(s, pos, key.w0);
    lemma_parse_u64_bytes(s, pos + 8, key.w1);
    lemma_parse_u64_bytes(s, pos + 16, key.w2);
    lemma_parse_u64_bytes(s, pos + 24, key.w3);
}

/// What `parse_pubkey` read is the printing of its result.
pub proof fn lemma_pubkey_bytes_parse(s: Seq<u8>, pos: int)
    requires
        parse_pubkey(s, pos) is Some,
    ensures
        s.subrange(pos, pos + 32) == pubkey_bytes(parse_pubkey(s, pos).unwrap().0),
{
    lemma_u64_bytes_parse(s, pos);
    lemma_u64_bytes_parse(s, pos + 8);
    lemma_u64_bytes_parse(s, pos + 16);
    lemma_u64_bytes_parse(s, pos + 24);
    lemma_join_at(s, pos, pos + 8, pos + 16);
    lemma_join_at(s, pos, pos + 16, pos + 24);
    lemma_join_at(s, pos, pos + 24, pos + 32);
}

impl Pubkey {
    /// The address whose 32 bytes are `bytes`.
    pub fn new_from_array(bytes: [u8; 32]) -> (key: Pubkey)
        ensures
            pubkey_bytes(key) == bytes@,
    {
        let mut buffer: Vec<u8> = Vec::new();
        let mut i: usize = 0;
        while i < 32
            invariant
                i <= 32,
                buffer@ == bytes@.subrange(0, i as int),
            decreases 32 - i,
        {
            buffer.push(bytes[i]);
            i += 1;
            assert(buffer@ =~= bytes@.subrange(0, i as int));
        }
        assert(buffer@ =~= bytes@);
        let (key, _) = get_pubkey(&buffer, 0).unwrap();
        proof {
            lemma_pubkey_bytes_parse(buffer@, 0);
            assert(buffer@.subrange(0, 32) =~= buffer@);
        }
        key
    }

    /// The 32 bytes of the address.
    pub fn to_bytes(&self) -> (bytes: Vec<u8>)
        ensures
            bytes@ == pubkey_bytes(*self),
    {
        let mut bytes: Vec<u8> = Vec::new();
        put_pubkey(&mut bytes, self);
        assert(Seq::<u8>::empty() + pubkey_bytes(*self) =~= pubkey_bytes(*self));
        bytes
    }
}

/// Appends the 32 bytes of `key` to `out`.
pub fn put_pubkey(out: &mut Vec<u8>, key: &Pubkey)
    ensures
        final(out)@ == old(out)@ + pubkey_bytes(*key),
{
    put_u64(out, key.w0);
    put_u64(out, key.w1);
    put_u64(out, key.w2);
    put_u64(out, key.w3);
    assert(out@ =~= old(out)@ + pubkey_bytes(*key));
}

/// Reads an address at `pos`.
pub fn get_pubkey(buffer: &Vec<u8>, pos: usize) -> (r: Option<(Pubkey, usize)>)
    ensures
        match r {
            Some((key, end)) => parse_pubkey(buffer@, pos as int) == Some((key, end as int)),
            None => parse_pubkey(buffer@, pos as int) is None,
        },
{
    if pos > buffer.len() || buffer.len() - pos < 32 {
        return None;
    }
    let (w0, stop1) = get_u64(buffer, pos).unwrap();
    let (w1, stop2) = get_u64(buffer, stop1).unwrap();
    let (w2, stop3) = get_u64(buffer, stop2).unwrap();
    let (w3, stop4) = get_u64(buffer, stop3).unwrap();
    Some((Pubkey { w0, w1, w2, w3 }, stop4))
}

/// A credential recognised by a permission check.
#[derive(Clone, Copy, Debug, PartialEq, Eq, Structural, Hash)]
pub enum Authority {
    /// Whoever currently holds the asset.
    Owner,
    /// Whoever is the entity's update authority.
    UpdateAuthority,
    /// One specific address.
    Address { address: Pubkey },
}

/// The encoding of an authority: a tag byte, then the address if there is one.
pub open spec fn authority_bytes(authority: Authority) -> Seq<u8> {
    match authority {
        Authority::Owner => seq![1u8],
        Authority::UpdateAuthority => seq![2u8],
        Authority::Address { address } => seq![3u8] + pubkey_bytes(address),
    }
}

/// Reads an authority at `pos`.
pub open spec fn parse_authority(s: Seq<u8>, pos: int) -> Option<(Authority, int)> {
    if 0 <= pos < s.len() {
        if s[pos] == 1 {
            Some((Authority::Owner, pos + 1))
        } else if s[pos] == 2 {
            Some((Authority::UpdateAuthority, pos + 1))
        } else if s[pos] == 3 {
            match parse_pubkey(s, pos + 1) {
                Some((address, end)) => Some((Authority::Address { address }, end)),
                None => None,
            }
        } else {
            None
        }
    } else {
        None
    }
}

/// Reading what `authority_bytes` printed gives the authority back.
pub proof fn lemma_parse_authority_bytes(s: Seq<u8>, pos: int, authority: Authority)
    requires
        0 <= pos,
        pos + authority_bytes(authority).len() <= s.len(),
        s.subrange(pos, pos + authority_bytes(authority).len()) == authority_bytes(authority),
    ensures
        parse_authority(s, pos) == Some((authority, pos + authority_bytes(authority).len())),
{
    let whole = s.subrange(pos, pos + authority_bytes(authority).len());
    assert(whole[0] == s[pos]);
    match authority {
        Authority::Address { address } => {
            lemma_pubkey_len(address);
            lemma_split_at(s, pos, seq![3u8], pubkey_bytes(address));
            lemma_parse_pubkey_bytes(s, pos + 1, address);
        },
        _ => {},
    }
}

/// What `parse_authority` read is the printing of its result.
pub proof fn lemma_authority_bytes_parse(s: Seq<u8>, pos: int)
    requires
        parse_authority(s, pos) is Some,
    ensures
        ({
            let (authority, end) = parse_authority(s, pos).unwrap();
            &&& 0 <= pos < end <= s.len()
            &&& end == pos + authority_bytes(authority).len()
            &&& s.subrange(pos, end) == authority_bytes(authority)
        }),
{
    let (authority, end) = parse_authority(s, pos).unwrap();
    match authority {
        Authority::Address { address } => {
            lemma_pubkey_len(address);
            lemma_pubkey_bytes_parse(s, pos + 1);
            lemma_join_at(s, pos, pos + 1, end);
            assert(s.subrange(pos, pos + 1) =~= seq![3u8]);
        },
        Authority::Owner => {
            assert(s.subrange(pos, pos + 1) =~= seq![1u8]);
        },
        Authority::UpdateAuthority => {
            assert(s.subrange(pos, pos + 1) =~= seq![2u8]);
        },
    }
}

/// Appends the encoding of `authority` to `out`.
pub fn put_authority(out: &mut Vec<u8>, authority: &Authority)
    ensures
        final(out)@ == old(out)@ + authority_bytes(*authority),
{
    match authority {
        Authority::Owner => {
            out.push(1);
            assert(out@ =~= old(out)@ + seq![1u8]);
        },
        Authority::UpdateAuthority => {
            out.push(2);
            assert(out@ =~= old(out)@ + seq![2u8]);
        },
        Authority::Address { address } => {
            out.push(3);
            put_pubkey(out, address);
            assert(out@ =~= old(out)@ + (seq![3u8] + pubkey_bytes(*address)));
        },
    }
}

/// Reads an authority at `pos`.
pub fn get_authority(buffer: &Vec<u8>, pos: usize) -> (r: Option<(Authority, usize)>)
    ensures
        match r {
            Some((authority, end)) => parse_authority(buffer@, pos as int) == Some(
                (authority, end as int),
            ),
            None => parse_authority(buffer@, pos as int) is None,
        },
{
    if pos >= buffer.len() {
        return None;
    }
    let tag: u8 = buffer[pos];
    if tag == 1 {
        Some((Authority::Owner, pos + 1))
    } else if tag == 2 {
        Some((Authority::UpdateAuthority, pos + 1))
    } else if tag == 3 {
        match get_pubkey(buffer, pos + 1) {
            Some((address, end)) => Some((Authority::Address { address }, end)),
            None => None,
        }
    } else {
        None
    }
}

/// Who may change an asset's metadata.
#[derive(Clone, Copy, Debug, PartialEq, Eq, Structural, Hash)]
pub enum UpdateAuthority {
    /// Whoever currently holds the asset.
    Owner,
    /// One specific address.
    Address(Pubkey),
    /// The update authority of the collection at this address.
    Collection(Pubkey),
}

/// The encoding of an update authority: a tag byte, then the address if there is one.
pub open spec fn update_authority_bytes(authority: UpdateAuthority) -> Seq<u8> {
    match authority {
        UpdateAuthority::Owner => seq![0u8],
        UpdateAuthority::Address(address) => seq![1u8] + pubkey_bytes(address),
        UpdateAuthority::Collection(address) => seq![2u8] + pubkey_bytes(address),
    }
}

/// Reads an update authority at `pos`.
pub open spec fn parse_update_authority(s: Seq<u8>, pos: int) -> Option<(UpdateAuthority, int)> {
    if 0 <= pos < s.len() {
        if s[pos] == 0 {
            Some((UpdateAuthority::Owner, pos + 1))
        } else if s[pos] == 1 {
            match parse_pubkey(s, pos + 1) {
                Some((address, end)) => Some((UpdateAuthority::Address(address), end)),
                None => None,
            }
        } else if s[pos] == 2 {
            match parse_pubkey(s, pos + 1) {
                Some((address, end)) => Some((UpdateAuthority::Collection(address), end)),
                None => None,
            }
        } else {
            None
        }
    } else {
        None
    }
}

/// Reading what `update_authority_bytes` printed gives the value back.
pub proof fn lemma_parse_update_authority_bytes(s: Seq<u8>, pos: int, authority: UpdateAuthority)
    requires
        0 <= pos,
        pos + update_authority_bytes(authority).len() <= s.len(),
        s.subrange(pos, pos + update_authority_bytes(authority).len()) == update_authority_bytes(
            authority,
        ),
    ensures
        parse_update_authority(s, pos) == Some(
            (authority, pos + update_authority_bytes(authority).len()),
        ),
{
    let whole = s.subrange(pos, pos + update_authority_bytes(authority).len());
    assert(whole[0] == s[pos]);
    match authority {
        UpdateAuthority::Address(address) => {
            lemma_pubkey_len(address);
            lemma_split_at(s, pos, seq![1u8], pubkey_bytes(address));
            lemma_parse_pubkey_bytes(s, pos + 1, address);
        },
        UpdateAuthority::Collection(address) => {
            lemma_pubkey_len(address);
            lemma_split_at(s, pos, seq![2u8], pubkey_bytes(address));
            lemma_parse_pubkey_bytes(s, pos + 1, address);
        },
        UpdateAuthority::Owner => {},
    }
}

/// What `parse_update_authority` read is the printing of its result.
pub proof fn lemma_update_authority_bytes_parse(s: Seq<u8>, pos: int)
    requires
        parse_update_authority(s, pos) is Some,
    ensures
        ({
            let (authority, end) = parse_update_authority(s, pos).unwrap();
            &&& 0 <= pos < end <= s.len()
            &&& end == pos + update_authority_bytes(authority).len()
            &&& s.subrange(pos, end) == update_authority_bytes(authority)
        }),
{
    let (authority, end) = parse_update_authority(s, pos).unwrap();
    match authority {
        UpdateAuthority::Address(address) => {
            lemma_pubkey_len(address);
            lemma_pubkey_bytes_parse(s, pos + 1);
            lemma_join_at(s, pos, pos + 1, end);
            assert(s.subrange(pos, pos + 1) =~= seq![1u8]);
        },
        UpdateAuthority::Collection(address) => {
            lemma_pubkey_len(address);
            lemma_pubkey_bytes_parse(s, pos + 1);
            lemma_join_at(s, pos, pos + 1, end);
            assert(s.subrange(pos, pos + 1) =~= seq![2u8]);
        },
        UpdateAuthority::Owner => {
            assert(s.subrange(pos, pos + 1) =~= seq![0u8]);
        },
    }
}

/// Appends the encoding of `authority` to `out`.
pub fn put_update_authority(out: &mut Vec<u8>, authority: &UpdateAuthority)
    ensures
        final(out)@ == old(out)@ + update_authority_bytes(*authority),
{
    match authority {
        UpdateAuthority::Owner => {
            out.push(0);
            assert(out@ =~= old(out)@ + seq![0u8]);
        },
        UpdateAuthority::Address(address) => {
            out.push(1);
            put_pubkey(out, address);
            assert(out@ =~= old(out)@ + (seq![1u8] + pubkey_bytes(*address)));
        },
        UpdateAuthority::Collection(address) => {
            out.push(2);
            put_pubkey(out, address);
            assert(out@ =~= old(out)@ + (seq![2u8] + pubkey_bytes(*address)));
        },
    }
}

/// Reads an update authority at `pos`.
pub fn get_update_authority(buffer: &Vec<u8>, pos: usize) -> (r: Option<(UpdateAuthority, usize)>)
    ensures
        match r {
            Some((authority, end)) => parse_update_authority(buffer@, pos as int) == Some(
                (authority, end as int),
            ),
            None => parse_update_authority(buffer@, pos as int) is None,
        },
{
    if pos >= buffer.len() {
        return None;
    }
    let tag: u8 = buffer[pos];
    if tag == 0 {
        Some((UpdateAuthority::Owner, pos + 1))
    } else if tag == 1 {
        match get_pubkey(buffer, pos + 1) {
            Some((address, end)) => Some((UpdateAuthority::Address(address), end)),
            None => None,
        }
    } else if tag == 2 {
        match get_pubkey(buffer, pos + 1) {
            Some((address, end)) => Some((UpdateAuthority::Collection(address), end)),
            None => None,
        }
    } else {
        None
    }
}

/// First byte of an encoded asset.
pub const KEY_ASSET: u8 = 1;

/// First byte of an encoded plugin header.
pub const KEY_PLUGIN_HEADER: u8 = 3;

/// First byte of an encoded plugin registry.
pub const KEY_PLUGIN_REGISTRY: u8 = 4;

/// First byte of an encoded collection.
pub const KEY_COLLECTION: u8 = 5;

/// An asset: who holds it, who may update it, and its display metadata.
#[derive(Clone, Debug, PartialEq, Eq)]
pub struct Asset {
    /// The holder of the asset.
    pub owner: Pubkey,
    /// Who may change the metadata.
    pub update_authority: UpdateAuthority,
    /// The name of the asset.
    pub name: String,
    /// The URI of the asset's off-chain description.
    pub uri: String,
}

/// A collection: who may update it, and its display metadata.
#[derive(Clone, Debug, PartialEq, Eq)]
pub struct Collection {
    /// Who may change the collection.
    pub update_authority: Pubkey,
    /// The name of the collection.
    pub name: String,
    /// The URI of the collection's off-chain description.
    pub uri: String,
}

/// A core entity: the record at the start of every buffer.
#[derive(Clone, Debug, PartialEq, Eq)]
pub enum Core {
    Asset(Asset),
    Collection(Collection),
}

/// The mathematical value of a core entity.
pub enum CoreView {
    Asset { owner: Pubkey, update_authority: UpdateAuthority, name: Seq<char>, uri: Seq<char> },
    Collection { authority: Pubkey, name: Seq<char>, uri: Seq<char> },
}

impl View for Asset {
    type V = CoreView;

    open spec fn view(&self) -> CoreView {
        CoreView::Asset {
            owner: self.owner,
            update_authority: self.update_authority,
            name: self.name@,
            uri: self.uri@,
        }
    }
}

impl View for Collection {
    type V = CoreView;

    open spec fn view(&self) -> CoreView {
        CoreView::Collection {
            authority: self.update_authority,
            name: self.name@,
            uri: self.uri@,
        }
    }
}

impl View for Core {
    type V = CoreView;

    open spec fn view(&self) -> CoreView {
        match self {
            Core::Asset(asset) => asset@,
            Core::Collection(collection) => collection@,
        }
    }
}

impl CoreView {
    /// The name of the entity.
    pub open spec fn name(self) -> Seq<char> {
        match self {
            CoreView::Asset { name, .. } => name,
            CoreView::Collection { name, .. } => name,
        }
    }

    /// The URI of the entity.
    pub open spec fn uri(self) -> Seq<char> {
        match self {
            CoreView::Asset { uri, .. } => uri,
            CoreView::Collection { uri, .. } => uri,
        }
    }

    /// The fixed-size part of the encoding: everything but the two strings.
    pub open spec fn head(self) -> Seq<u8> {
        match self {
            CoreView::Asset { owner, update_authority, .. } => seq![KEY_ASSET] + pubkey_bytes(
                owner,
            ) + update_authority_bytes(update_authority),
            CoreView::Collection { authority, .. } => seq![KEY_COLLECTION] + pubkey_bytes(
                authority,
            ),
        }
    }

    /// The encoding of the entity: the core header of its buffer.
    pub open spec fn bytes(self) -> Seq<u8> {
        self.head() + string_bytes(self.name()) + string_bytes(self.uri())
    }

    /// Number of bytes of the encoding.
    pub open spec fn size(self) -> int {
        self.head().len() + string_len(self.name()) + string_len(self.uri())
    }

    /// Both strings are short enough for their length prefixes.
    pub open spec fn fits(self) -> bool {
        string_fits(self.name()) && string_fits(self.uri())
    }

    /// The same entity under another name.
    pub open spec fn with_name(self, name: Seq<char>) -> CoreView {
        match self {
            CoreView::Asset { owner, update_authority, uri, .. } => CoreView::Asset {
                owner,
                update_authority,
                name,
                uri,
            },
            CoreView::Collection { authority, uri, .. } => CoreView::Collection {
                authority,
                name,
                uri,
            },
        }
    }

    /// The same entity with another URI.
    pub open spec fn with_uri(self, uri: Seq<char>) -> CoreView {
        match self {
            CoreView::Asset { owner, update_authority, name, .. } => CoreView::Asset {
                owner,
                update_authority,
                name,
                uri,
            },
            CoreView::Collection { authority, name, .. } => CoreView::Collection {
                authority,
                name,
                uri,
            },
        }
    }
}

/// Reads the fixed-size part of a core header at `pos`, with empty strings
/// in place of the name and the URI.
pub open spec fn parse_core_head(s: Seq<u8>, pos: int) -> Option<(CoreView, int)> {
    if 0 <= pos < s.len() {
        if s[pos] == KEY_ASSET {
            match parse_pubkey(s, pos + 1) {
                Some((owner, stop1)) => match parse_update_authority(s, stop1) {
                    Some((update_authority, stop2)) => Some(
                        (
                            CoreView::Asset {
                                owner,
                                update_authority,
                                name: Seq::empty(),
                                uri: Seq::empty(),
                            },
                            stop2,
                        ),
                    ),
                    None => None,
                },
                None => None,
            }
        } else if s[pos] == KEY_COLLECTION {
            match parse_pubkey(s, pos + 1) {
                Some((authority, stop1)) => Some(
                    (
                        CoreView::Collection {
                            authority,
                            name: Seq::empty(),
                            uri: Seq::empty(),
                        },
                        stop1,
                    ),
                ),
                None => None,
            }
        } else {
            None
        }
    } else {
        None
    }
}

/// Reads a core header at `pos`.
#[verifier::opaque]
pub open spec fn parse_core(s: Seq<u8>, pos: int) -> Option<(CoreView, int)> {
    match parse_core_head(s, pos) {
        Some((head, stop1)) => match parse_string(s, stop1) {
            Some((name, stop2)) => match parse_string(s, stop2) {
                Some((uri, stop3)) => Some((head.with_name(name).with_uri(uri), stop3)),
                None => None,
            },
            None => None,
        },
        None => None,
    }
}

/// The fixed-size part of a core header has between 33 and 66 bytes.
pub proof fn lemma_core_head_len(core: CoreView)
    ensures
        33 <= core.head().len() <= 66,
        core.head().len() == match core {
            CoreView::Asset { update_authority, .. } => if update_authority
                == UpdateAuthority::Owner {
                34int
            } else {
                66int
            },
            CoreView::Collection { .. } => 33int,
        },
        core.size() == core.bytes().len(),
        core.size() >= 41,
{
    lemma_string_bytes_len(core.name());
    lemma_string_bytes_len(core.uri());
    match core {
        CoreView::Asset { owner, update_authority, .. } => {
            lemma_pubkey_len(owner);
            match update_authority {
                UpdateAuthority::Owner => {},
                UpdateAuthority::Address(address) => {
                    lemma_pubkey_len(address);
                },
                UpdateAuthority::Collection(address) => {
                    lemma_pubkey_len(address);
                },
            }
        },
        CoreView::Collection { authority, .. } => {
            lemma_pubkey_len(authority);
        },
    }
}

/// Reading what `CoreView::bytes` printed gives the entity back.
pub proof fn lemma_parse_core_bytes(s: Seq<u8>, pos: int, core: CoreView)
    requires
        0 <= pos,
        core.fits(),
        pos + core.size() <= s.len(),
        s.subrange(pos, pos + core.size()) == core.bytes(),
    ensures
        parse_core(s, pos) == Some((core, pos + core.size())),
{
    reveal(parse_core);
    lemma_core_head_len(core);
    lemma_string_bytes_len(core.name());
    lemma_string_bytes_len(core.uri());
    let head = core.head();
    let name = string_bytes(core.name());
    let uri = string_bytes(core.uri());
    assert(name.len() == string_len(core.name()));
    assert(uri.len() == string_len(core.uri()));
    lemma_split_at(s, pos, head + name, uri);
    lemma_split_at(s, pos, head, name);
    let stop1 = pos + head.len();
    assert(s.subrange(pos, stop1)[0] == s[pos]);
    match core {
        CoreView::Asset { owner, update_authority, .. } => {
            lemma_pubkey_len(owner);
            let ua = update_authority_bytes(update_authority);
            lemma_split_at(s, pos, seq![KEY_ASSET] + pubkey_bytes(owner), ua);
            lemma_split_at(s, pos, seq![KEY_ASSET], pubkey_bytes(owner));
            lemma_parse_pubkey_bytes(s, pos + 1, owner);
            lemma_parse_update_authority_bytes(s, pos + 33, update_authority);
        },
        CoreView::Collection { authority, .. } => {
            lemma_pubkey_len(authority);
            lemma_split_at(s, pos, seq![KEY_COLLECTION], pubkey_bytes(authority));
            lemma_parse_pubkey_bytes(s, pos + 1, authority);
        },
    }
    lemma_parse_string_bytes(s, stop1, core.name());
    lemma_parse_string_bytes(s, stop1 + name.len(), core.uri());
}

/// What `parse_core` read is the printing of its result.
pub proof fn lemma_core_bytes_parse(s: Seq<u8>, pos: int)
    requires
        parse_core(s, pos) is Some,
    ensures
        ({
            let (core, end) = parse_core(s, pos).unwrap();
            &&& 0 <= pos < end <= s.len()
            &&& core.fits()
            &&& end == pos + core.size()
            &&& s.subrange(pos, end) == core.bytes()
        }),
{
    reveal(parse_core);
    let (core, end) = parse_core(s, pos).unwrap();
    let (head, stop1) = parse_core_head(s, pos).unwrap();
    let (name, stop2) = parse_string(s, stop1).unwrap();
    lemma_string_bytes_parse(s, stop1);
    lemma_string_bytes_parse(s, stop2);
    match core {
        CoreView::Asset { owner, update_authority, .. } => {
            lemma_pubkey_len(owner);
            lemma_pubkey_bytes_parse(s, pos + 1);
            lemma_update_authority_bytes_parse(s, pos + 33);
            assert(s.subrange(pos, pos + 1) =~= seq![KEY_ASSET]);
            lemma_join_at(s, pos, pos + 1, pos + 33);
            lemma_join_at(s, pos, pos + 33, stop1);
        },
        CoreView::Collection { authority, .. } => {
            lemma_pubkey_len(authority);
            lemma_pubkey_bytes_parse(s, pos + 1);
            assert(s.subrange(pos, pos + 1) =~= seq![KEY_COLLECTION]);
            lemma_join_at(s, pos, pos + 1, stop1);
        },
    }
    assert(s.subrange(pos, stop1) == core.head());
    lemma_join_at(s, pos, stop1, stop2);
    lemma_join_at(s, pos, stop2, end);
}

impl Core {
    /// Number of bytes of the encoded entity, or `None` when that number
    /// does not fit the machine's word.
    pub fn get_size(&self) -> (size: Option<usize>)
        ensures
            match size {
                Some(n) => n == self@.size(),
                None => self@.size() > usize::MAX,
            },
    {
        let (head, name, uri): (usize, &String, &String) = match self {
            Core::Asset(asset) => {
                proof {
                    lemma_core_head_len(asset@);
                }
                match asset.update_authority {
                    UpdateAuthority::Owner => (34, &asset.name, &asset.uri),
                    _ => (66, &asset.name, &asset.uri),
                }
            },
            Core::Collection(collection) => {
                proof {
                    lemma_core_head_len(collection@);
                }
                (33, &collection.name, &collection.uri)
            },
        };
        let fixed: usize = head + 8;
        let with_name = match fixed.checked_add(name.as_str().as_bytes().len()) {
            Some(n) => n,
            None => { return None; },
        };
        with_name.checked_add(uri.as_str().as_bytes().len())
    }

    /// Appends the encoding of the entity to `out`, or leaves `out` as it
    /// was and returns `false` when a string is too long to be encoded.
    pub fn put(&self, out: &mut Vec<u8>) -> (done: bool)
        ensures
            done == self@.fits(),
            done ==> final(out)@ == old(out)@ + self@.bytes(),
            !done ==> final(out)@ == old(out)@,
    {
        let mut bytes: Vec<u8> = Vec::new();
        let (name, uri): (&String, &String) = match self {
            Core::Asset(asset) => {
                bytes.push(KEY_ASSET);
                put_pubkey(&mut bytes, &asset.owner);
                put_update_authority(&mut bytes, &asset.update_authority);
                (&asset.name, &asset.uri)
            },
            Core::Collection(collection) => {
                bytes.push(KEY_COLLECTION);
                put_pubkey(&mut bytes, &collection.update_authority);
                (&collection.name, &collection.uri)
            },
        };
        assert(bytes@ =~= self@.head());
        if !put_string(&mut bytes, name) {
            return false;
        }
        if !put_string(&mut bytes, uri) {
            return false;
        }
        out.append(&mut bytes);
        true
    }

    /// Reads a core header at `pos`.
    pub fn get(buffer: &Vec<u8>, pos: usize) -> (r: Option<(Core, usize)>)
        ensures
            match r {
                Some((core, end)) => parse_core(buffer@, pos as int) == Some(
                    (core@, end as int),
                ),
                None => parse_core(buffer@, pos as int) is None,
            },
    {
        proof {
            reveal(parse_core);
        }
        if pos >= buffer.len() {
            return None;
        }
        let key: u8 = buffer[pos];
        if key == KEY_ASSET {
            let (owner, stop1) = match get_pubkey(buffer, pos + 1) {
                Some(pair) => pair,
                None => { return None; },
            };
            let (update_authority, stop2) = match get_update_authority(buffer, stop1) {
                Some(pair) => pair,
                None => { return None; },
            };
            let (name, stop3) = match get_string(buffer, stop2) {
                Some(pair) => pair,
                None => { return None; },
            };
            let (uri, stop4) = match get_string(buffer, stop3) {
                Some(pair) => pair,
                None => { return None; },
            };
            Some((Core::Asset(Asset { owner, update_authority, name, uri }), stop4))
        } else if key == KEY_COLLECTION {
            let (update_authority, stop1) = match get_pubkey(buffer, pos + 1) {
                Some(pair) => pair,
                None => { return None; },
            };
            let (name, stop2) = match get_string(buffer, stop1) {
                Some(pair) => pair,
                None => { return None; },
            };
            let (uri, stop3) = match get_string(buffer, stop2) {
                Some(pair) => pair,
                None => { return None; },
            };
            Some((Core::Collection(Collection { update_authority, name, uri }), stop3))
        } else {
            None
        }
    }
}

} // verus!
