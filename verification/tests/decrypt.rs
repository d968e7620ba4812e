use xanal::decrypt;

#[test]
fn test_decrypt_1() {
    let encrypted =
        hex::decode(b"2a00090a0d45110e0b16450f11450408421d04080309451207161146584c").unwrap();
    let output: Vec<u8> = decrypt(&encrypted, b"beef").into_iter().collect();
    assert_eq!(&output, b"Hello this is an xanal test :)");
}

#[test]
fn decrypt_twice_restores_the_data() {
    let data = b"attack at dawn, retreat at dusk".to_vec();
    let key = [0x13u8, 0x37, 0xc0, 0xde, 0x00];
    let once = decrypt(&data, &key);
    assert_ne!(once, data);
    assert_eq!(decrypt(&once, &key), data);
}

#[test]
fn decrypt_repeats_the_key_cyclically() {
    let data = [0u8, 0, 0, 0, 0, 0, 0];
    assert_eq!(decrypt(&data, &[1, 2, 3]), vec![1, 2, 3, 1, 2, 3, 1]);
}

#[test]
fn decrypt_with_a_key_longer_than_the_data_uses_its_start() {
    assert_eq!(decrypt(&[0xff, 0x0f], &[0x0f, 0x0f, 0x55, 0x66]), vec![0xf0, 0x00]);
}

#[test]
fn decrypt_of_nothing_is_nothing() {
    assert_eq!(decrypt(&[], &[]), Vec::<u8>::new());
    assert_eq!(decrypt(&[], b"key"), Vec::<u8>::new());
}
