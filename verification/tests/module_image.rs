use omen_fan::module_image::decode_module_image;

#[test]
fn xz_round_trip_recovers_the_image() {
    let image: Vec<u8> = (0..200u16).map(|i| (i % 251) as u8).collect();
    let mut packed: Vec<u8> = Vec::new();
    lzma_rs::xz_compress(&mut image.as_slice(), &mut packed).unwrap();
    assert_ne!(packed, image);
    let plain = decode_module_image(&packed).unwrap();
    assert_eq!(plain, image);
}

#[test]
fn garbage_is_not_an_xz_stream() {
    let garbage: Vec<u8> = vec![1, 2, 3, 4, 5];
    assert!(decode_module_image(&garbage).is_none());
}

#[test]
fn empty_buffer_is_not_an_xz_stream() {
    assert!(decode_module_image(&Vec::new()).is_none());
}
