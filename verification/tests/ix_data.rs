use autobahn_dex::invariant_accounts::AccountMetaSpec;
use autobahn_dex::ix_data::{
    fits_in_first_tick_array, openbook_swap_data, push_le_u128, push_le_u64, raydium_swap_accounts, raydium_swap_data,
    tick_array_keys, whirlpool_swap_accounts, whirlpool_swap_data, whirlpool_swap_discriminator,
};

#[test]
fn little_endian_bytes() {
    let mut v = vec![7u8];
    push_le_u64(&mut v, 0x0102_0304_0506_0708);
    assert_eq!(v, vec![7, 8, 7, 6, 5, 4, 3, 2, 1]);
    let mut w = Vec::new();
    push_le_u128(&mut w, 1u128 << 120 | 0xff);
    assert_eq!(w.len(), 16);
    assert_eq!((w[0], w[1], w[15]), (0xff, 0, 1));
    let x = 0xdead_beef_0bad_f00du64;
    let mut b = Vec::new();
    push_le_u64(&mut b, x);
    assert_eq!(u64::from_le_bytes(b.try_into().unwrap()), x);
}

#[test]
fn raydium_data_and_accounts() {
    let data = raydium_swap_data(1000, 990);
    assert_eq!(data.len(), 17);
    assert_eq!(data[0], 9);
    assert_eq!(&data[1..9], &1000u64.to_le_bytes());
    assert_eq!(&data[9..17], &990u64.to_le_bytes());
    let metas = raydium_swap_accounts([1; 32], [2; 32], [3; 32], [4; 32], [5; 32], [6; 32], [7; 32], [8; 32]);
    assert_eq!(metas.len(), 17);
    assert_eq!(metas[0], AccountMetaSpec { pubkey: [1; 32], is_signer: false, is_writable: false });
    assert_eq!(metas[2], AccountMetaSpec { pubkey: [3; 32], is_signer: false, is_writable: false });
    assert!(metas[6..14].iter().all(|m| m.pubkey == [2; 32] && m.is_writable && !m.is_signer));
    assert_eq!(metas[16], AccountMetaSpec { pubkey: [8; 32], is_signer: true, is_writable: true });
}

#[test]
fn openbook_data() {
    let data = openbook_swap_data(1234, true);
    assert_eq!(data.len(), 11);
    assert_eq!(data[0], 2);
    assert_eq!(&data[1..9], &1234u64.to_le_bytes());
    assert_eq!((data[9], data[10]), (1, 10));
    assert_eq!(openbook_swap_data(1234, false)[9], 0);
}

#[test]
fn whirlpool_data() {
    assert_eq!(whirlpool_swap_discriminator(), vec![248, 198, 158, 145, 225, 117, 135, 200]);
    let data = whirlpool_swap_data(500, 480, 4295048016, true, false);
    assert_eq!(data.len(), 42);
    assert_eq!(&data[0..8], &[248, 198, 158, 145, 225, 117, 135, 200]);
    assert_eq!(&data[8..16], &500u64.to_le_bytes());
    assert_eq!(&data[16..24], &480u64.to_le_bytes());
    assert_eq!(&data[24..40], &4295048016u128.to_le_bytes());
    assert_eq!((data[40], data[41]), (1, 0));
}

#[test]
fn whirlpool_tick_arrays() {
    let (a, b, c) = ([1u8; 32], [2u8; 32], [3u8; 32]);
    assert_eq!(tick_array_keys(a, Some(b), Some(c), true, true, false), (a, b, c));
    assert_eq!(tick_array_keys(a, Some(b), Some(c), false, true, false), (a, a, c));
    assert_eq!(tick_array_keys(a, Some(b), None, true, false, false), (a, b, a));
    assert_eq!(tick_array_keys(a, Some(b), Some(c), true, true, true), (a, a, a));
    assert!(fits_in_first_tick_array(true, Some((10, 20)), Some((10, 20))));
    assert!(!fits_in_first_tick_array(true, Some((10, 20)), Some((10, 19))));
    assert!(fits_in_first_tick_array(false, Some((10, 20)), Some((10, 19))));
    assert!(fits_in_first_tick_array(false, None, Some((0, 5))));
    let metas = whirlpool_swap_accounts([1; 32], [2; 32], [3; 32], [4; 32], [5; 32], [6; 32], [7; 32], (a, b, c), [9; 32]);
    assert_eq!(metas.len(), 11);
    assert_eq!(metas[1], AccountMetaSpec { pubkey: [2; 32], is_signer: true, is_writable: true });
    assert_eq!(metas[9], AccountMetaSpec { pubkey: c, is_signer: false, is_writable: true });
    assert_eq!(metas[10], AccountMetaSpec { pubkey: [9; 32], is_signer: false, is_writable: false });
}
