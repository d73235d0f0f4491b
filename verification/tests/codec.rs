use mpl_core::codec::get_string;
use mpl_core::codec::get_u32;
use mpl_core::codec::get_u64;
use mpl_core::codec::put_string;
use mpl_core::codec::put_u32;
use mpl_core::codec::put_u64;
use mpl_core::instructions::revoke::mpl_asset_id;
use mpl_core::state::get_authority;
use mpl_core::state::get_pubkey;
use mpl_core::state::get_update_authority;
use mpl_core::state::put_authority;
use mpl_core::state::put_pubkey;
use mpl_core::state::put_update_authority;
use mpl_core::state::Authority;
use mpl_core::state::Pubkey;
use mpl_core::state::UpdateAuthority;
use std::str::FromStr;

fn counting() -> [u8; 32] {
    let mut bytes = [0u8; 32];
    for (i, byte) in bytes.iter_mut().enumerate() {
        *byte = i as u8 + 1;
    }
    bytes
}

#[test]
fn u32_is_written_least_significant_byte_first() {
    let mut out = vec![0xaa];
    put_u32(&mut out, 0x1234_5678);
    assert_eq!(out, vec![0xaa, 0x78, 0x56, 0x34, 0x12]);
}

#[test]
fn u64_is_written_least_significant_byte_first() {
    let mut out = Vec::new();
    put_u64(&mut out, 0x0102_0304_0506_0708);
    assert_eq!(out, vec![8, 7, 6, 5, 4, 3, 2, 1]);
}

#[test]
fn u32_is_read_at_its_position() {
    let buffer = vec![9, 9, 0x78, 0x56, 0x34, 0x12, 9];
    assert_eq!(get_u32(&buffer, 2), Some((0x1234_5678, 6)));
    assert_eq!(get_u32(&buffer, 3), Some((0x0912_3456, 7)));
}

#[test]
fn u32_is_not_read_past_the_end() {
    let buffer = vec![1, 2, 3, 4, 5];
    assert_eq!(get_u32(&buffer, 2), None);
    assert_eq!(get_u32(&buffer, 5), None);
    assert_eq!(get_u32(&buffer, 6), None);
    assert_eq!(get_u32(&buffer, usize::MAX), None);
}

#[test]
fn u64_is_read_at_its_position() {
    let buffer = vec![0, 8, 7, 6, 5, 4, 3, 2, 1];
    assert_eq!(get_u64(&buffer, 1), Some((0x0102_0304_0506_0708, 9)));
    assert_eq!(get_u64(&buffer, 2), None);
}

#[test]
fn string_is_written_with_its_byte_length() {
    let mut out = Vec::new();
    assert!(put_string(&mut out, &String::from("héllo")));
    assert_eq!(out, vec![6, 0, 0, 0, b'h', 0xc3, 0xa9, b'l', b'l', b'o']);
}

#[test]
fn empty_string_is_a_bare_length() {
    let mut out = vec![7];
    assert!(put_string(&mut out, &String::new()));
    assert_eq!(out, vec![7, 0, 0, 0, 0]);
}

#[test]
fn string_is_read_back() {
    let buffer = vec![1, 3, 0, 0, 0, b'a', b'b', b'c', 2];
    assert_eq!(get_string(&buffer, 1), Some((String::from("abc"), 8)));
}

#[test]
fn string_that_is_cut_short_is_not_read() {
    let buffer = vec![4, 0, 0, 0, b'a', b'b', b'c'];
    assert_eq!(get_string(&buffer, 0), None);
}

#[test]
fn string_that_is_not_utf8_is_not_read() {
    let buffer = vec![2, 0, 0, 0, 0xff, 0xfe];
    assert_eq!(get_string(&buffer, 0), None);
}

#[test]
fn pubkey_keeps_its_bytes() {
    let key = Pubkey::new_from_array(counting());
    assert_eq!(key.to_bytes(), counting().to_vec());
    assert_eq!(key.w0, 0x0807_0605_0403_0201);
    assert_eq!(key.w3, 0x201f_1e1d_1c1b_1a19);
}

#[test]
fn pubkey_is_written_and_read_as_32_bytes() {
    let key = Pubkey::new_from_array(counting());
    let mut out = vec![0];
    put_pubkey(&mut out, &key);
    assert_eq!(out.len(), 33);
    assert_eq!(&out[1..], &counting()[..]);
    assert_eq!(get_pubkey(&out, 1), Some((key, 33)));
    assert_eq!(get_pubkey(&out, 2), None);
}

#[test]
fn program_address_is_the_published_one() {
    let published =
        solana_program::pubkey::Pubkey::from_str("CoREENxT6tW1HoK8ypY1SxRMZTcVPm7R94rH4PZNhX7d")
            .unwrap();
    assert_eq!(mpl_asset_id().to_bytes(), published.to_bytes().to_vec());
}

#[test]
fn authorities_have_their_tags() {
    let key = Pubkey::new_from_array([7; 32]);
    let mut out = Vec::new();
    put_authority(&mut out, &Authority::Owner);
    put_authority(&mut out, &Authority::UpdateAuthority);
    put_authority(&mut out, &Authority::Address { address: key });
    assert_eq!(out.len(), 35);
    assert_eq!(&out[..3], &[1, 2, 3]);
    assert_eq!(&out[3..], &[7; 32]);
    assert_eq!(get_authority(&out, 0), Some((Authority::Owner, 1)));
    assert_eq!(get_authority(&out, 1), Some((Authority::UpdateAuthority, 2)));
    assert_eq!(get_authority(&out, 2), Some((Authority::Address { address: key }, 35)));
    assert_eq!(get_authority(&out, 3), None);
}

#[test]
fn update_authorities_have_their_tags() {
    let key = Pubkey::new_from_array([5; 32]);
    let mut out = Vec::new();
    put_update_authority(&mut out, &UpdateAuthority::Owner);
    put_update_authority(&mut out, &UpdateAuthority::Address(key));
    put_update_authority(&mut out, &UpdateAuthority::Collection(key));
    assert_eq!(out.len(), 67);
    assert_eq!(out[0], 0);
    assert_eq!(out[1], 1);
    assert_eq!(out[34], 2);
    assert_eq!(get_update_authority(&out, 0), Some((UpdateAuthority::Owner, 1)));
    assert_eq!(get_update_authority(&out, 1), Some((UpdateAuthority::Address(key), 34)));
    assert_eq!(get_update_authority(&out, 34), Some((UpdateAuthority::Collection(key), 67)));
    assert_eq!(get_update_authority(&out, 35), None);
}
