use kv_store::codec::bin_to_id;
use kv_store::codec::id_to_bin;

#[test]
fn id_to_bin_is_big_endian() {
    assert_eq!(id_to_bin(0), vec![0u8; 8]);
    assert_eq!(id_to_bin(1), vec![0, 0, 0, 0, 0, 0, 0, 1]);
    assert_eq!(
        id_to_bin(918733457491587),
        vec![0x00, 0x03, 0x43, 0x95, 0x4d, 0x60, 0x86, 0x83]
    );
    assert_eq!(id_to_bin(u64::MAX), vec![0xffu8; 8]);
}

#[test]
fn bin_to_id_reads_the_first_eight_bytes() {
    assert_eq!(bin_to_id(&[0, 0, 0, 0, 0, 0, 1, 0]), 256);
    assert_eq!(bin_to_id(&[0, 0, 0, 0, 0, 0, 0, 7, 9, 9]), 7);
}

#[test]
fn codec_round_trip() {
    let samples = [0u64, 1, 255, 256, 65535, 1 << 32, (1 << 56) + 5, u64::MAX - 1, u64::MAX];
    for x in samples {
        assert_eq!(bin_to_id(&id_to_bin(x)), x);
    }
}

#[test]
fn codec_preserves_order() {
    let samples = [0u64, 1, 255, 256, 257, 65535, 65536, 1 << 32, (1 << 56) + 5, u64::MAX];
    for x in samples {
        for y in samples {
            assert_eq!(x < y, id_to_bin(x) < id_to_bin(y));
        }
    }
}
