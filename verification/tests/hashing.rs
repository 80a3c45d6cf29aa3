use tileset_diff::hash::hash_pixels;

#[test]
fn hash_of_an_empty_sprite() {
    assert_eq!(hash_pixels(0, 0, &vec![]), 672807365);
}

#[test]
fn hash_of_one_pixel() {
    assert_eq!(hash_pixels(1, 1, &vec![1, 2, 3, 4]), 2160646765);
}

#[test]
fn hash_depends_on_the_dimensions() {
    let pixels = vec![1, 2, 3, 4, 5, 6, 7, 8];
    assert_eq!(hash_pixels(2, 1, &pixels), 1668075398);
    assert_eq!(hash_pixels(1, 2, &pixels), 983052502);
}

#[test]
fn hash_of_a_blank_sprite() {
    assert_eq!(hash_pixels(32, 32, &vec![0; 4096]), 2653538245);
}

#[test]
fn hash_mixes_every_byte_of_the_dimensions() {
    assert_eq!(hash_pixels(0x0102_0304, 0xfffe_fdfc, &vec![255, 0, 128]), 4030921690);
}

#[test]
fn hash_depends_on_the_order_of_the_pixels() {
    assert_ne!(
        hash_pixels(2, 1, &vec![1, 2, 3, 4, 5, 6, 7, 8]),
        hash_pixels(2, 1, &vec![5, 6, 7, 8, 1, 2, 3, 4])
    );
}

#[test]
fn hash_is_the_same_every_time() {
    let pixels: Vec<u8> = (0..64).collect();
    assert_eq!(hash_pixels(4, 4, &pixels), hash_pixels(4, 4, &pixels));
}
