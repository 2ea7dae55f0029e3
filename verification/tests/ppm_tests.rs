use lib::ppm::encode_ppm;

#[test]
fn empty_image_is_just_the_header() {
    assert_eq!(encode_ppm(4, 4, &[]), b"P3\n4 4\n255\n".to_vec());
}

#[test]
fn pixels_are_written_one_line_each_in_order() {
    let pixels = [(0, 0, 0), (255, 0, 255), (255, 255, 255)];
    let text = String::from_utf8(encode_ppm(3, 1, &pixels)).unwrap();
    assert_eq!(text, "P3\n3 1\n255\n0 0 0\n255 0 255\n255 255 255\n");
}

#[test]
fn header_uses_the_full_size() {
    let text = String::from_utf8(encode_ppm(800, 600, &[(12, 3, 140)])).unwrap();
    assert_eq!(text, "P3\n800 600\n255\n12 3 140\n");
}

#[test]
fn body_of_joined_runs_is_the_joined_bodies() {
    let a = [(1, 2, 3), (40, 50, 60)];
    let b = [(7, 8, 9)];
    let joined: Vec<(u8, u8, u8)> = a.iter().chain(b.iter()).copied().collect();
    let whole = encode_ppm(3, 1, &joined);
    let first = encode_ppm(3, 1, &a);
    let second = encode_ppm(3, 1, &b);
    let header_len = b"P3\n3 1\n255\n".len();
    let mut expected = first.clone();
    expected.extend_from_slice(&second[header_len..]);
    assert_eq!(whole, expected);
}
