use sockudo_ws::mask::{apply_mask, apply_mask_offset, generate_mask, generate_mask_fast};

#[test]
fn mask_xors_with_rotating_key() {
    let mut data = vec![0x00u8, 0x11, 0x22, 0x33, 0x44, 0x55];
    apply_mask(&mut data, [0x01, 0x02, 0x04, 0x08]);
    assert_eq!(data, vec![0x01, 0x13, 0x26, 0x3B, 0x45, 0x57]);
}

#[test]
fn rfc6455_masked_hello() {
    // RFC 6455, section 5.7: "Hello" masked with 37 fa 21 3d.
    let mut data = b"Hello".to_vec();
    apply_mask(&mut data, [0x37, 0xfa, 0x21, 0x3d]);
    assert_eq!(data, vec![0x7f, 0x9f, 0x4d, 0x51, 0x58]);
}

#[test]
fn mask_offset_starts_at_given_key_byte() {
    let mut data = vec![0u8; 5];
    apply_mask_offset(&mut data, [1, 2, 3, 4], 2);
    assert_eq!(data, vec![3, 4, 1, 2, 3]);
    let mut data = vec![0u8; 3];
    apply_mask_offset(&mut data, [1, 2, 3, 4], 7);
    assert_eq!(data, vec![4, 1, 2]);
}

#[test]
fn masking_twice_restores_payload() {
    let original: Vec<u8> = (0u8..=200).collect();
    for offset in 0..4usize {
        let mut data = original.clone();
        apply_mask_offset(&mut data, [0xde, 0xad, 0xbe, 0xef], offset);
        assert_ne!(data, original);
        apply_mask_offset(&mut data, [0xde, 0xad, 0xbe, 0xef], offset);
        assert_eq!(data, original);
    }
    let mut data = original.clone();
    apply_mask(&mut data, [9, 8, 7, 6]);
    apply_mask(&mut data, [9, 8, 7, 6]);
    assert_eq!(data, original);
}

#[test]
fn masking_in_pieces_matches_whole() {
    let original: Vec<u8> = (0u8..50).collect();
    let key = [0x12, 0x34, 0x56, 0x78];
    let mut whole = original.clone();
    apply_mask(&mut whole, key);
    let mut first = original[..13].to_vec();
    let mut second = original[13..].to_vec();
    apply_mask_offset(&mut first, key, 0);
    apply_mask_offset(&mut second, key, 13);
    first.extend_from_slice(&second);
    assert_eq!(first, whole);
}

#[test]
fn empty_payload_is_unchanged() {
    let mut data: Vec<u8> = Vec::new();
    apply_mask(&mut data, [1, 2, 3, 4]);
    assert!(data.is_empty());
}

#[test]
fn generated_masks_vary() {
    let masks: Vec<[u8; 4]> = (0..32).map(|_| generate_mask()).collect();
    assert!(masks.iter().any(|m| *m != masks[0]));
    let fast: Vec<[u8; 4]> = (0..32).map(|_| generate_mask_fast()).collect();
    assert!(fast.iter().any(|m| *m != fast[0]));
}
