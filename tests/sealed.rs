use structure::sealed::{open_frame, seal_frame, NONCE_LEN, SALT_LEN};

#[test]
fn frame_round_trip_with_salt() {
    let salt: Vec<u8> = (0..16).collect();
    let nonce: Vec<u8> = (100..112).collect();
    let ct = vec![7u8, 8, 9];
    let data = seal_frame(&salt, &nonce, &ct);
    assert_eq!(data.len(), 31);
    let parts = open_frame(&data, true).unwrap();
    assert_eq!(parts.salt, salt);
    assert_eq!(parts.nonce, nonce);
    assert_eq!(parts.ciphertext, ct);
}

#[test]
fn frame_without_salt() {
    let data: Vec<u8> = (0..12).collect();
    let parts = open_frame(&data, false).unwrap();
    assert!(parts.salt.is_empty());
    assert_eq!(parts.nonce, data);
    assert!(parts.ciphertext.is_empty());
    assert_eq!(seal_frame(&[], &[1, 2], &[3]), vec![1, 2, 3]);
}

#[test]
fn short_frames_are_refused() {
    assert!(open_frame(&[0u8; 11], false).is_none());
    assert!(open_frame(&[0u8; 27], true).is_none());
    assert!(open_frame(&[0u8; 28], true).is_some());
    assert_eq!(SALT_LEN + NONCE_LEN, 28);
}
