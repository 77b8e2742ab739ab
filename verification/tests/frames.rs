use exam_monitor_core::frames::{decode_data_url, encode_jpeg, image_data_url};

#[test]
fn frames_become_data_urls_and_back() {
    let url = image_data_url(b"abc");
    assert_eq!(url, "data:image/jpeg;base64,YWJj");
    assert_eq!(decode_data_url(&url), Some(b"abc".to_vec()));
    let jpeg = vec![0xffu8, 0xd8, 0x00, 0x10, 0x7f];
    assert_eq!(decode_data_url(&image_data_url(&jpeg)), Some(jpeg));
}

#[test]
fn base64_pads_the_last_group() {
    assert_eq!(image_data_url(b"M"), "data:image/jpeg;base64,TQ==");
    assert_eq!(image_data_url(b"Ma"), "data:image/jpeg;base64,TWE=");
    assert_eq!(image_data_url(&[0xff, 0xd8, 0xff, 0xe0]), "data:image/jpeg;base64,/9j/4A==");
    assert_eq!(image_data_url(b""), "data:image/jpeg;base64,");
    assert_eq!(decode_data_url("data:image/jpeg;base64,"), Some(Vec::new()));
}

#[test]
fn malformed_data_urls_give_nothing() {
    assert_eq!(decode_data_url("no comma here"), None);
    assert_eq!(decode_data_url("data:x,!!!"), None);
    assert_eq!(decode_data_url("a,YWJj,ignored"), Some(b"abc".to_vec()));
}

#[test]
fn rgb_images_encode_as_jpeg() {
    let pixels = vec![200u8; 4 * 3 * 3];
    let jpeg = encode_jpeg(&pixels, 4, 3, 60).unwrap();
    assert_eq!(&jpeg[..2], &[0xff, 0xd8]);
    assert_eq!(&jpeg[jpeg.len() - 2..], &[0xff, 0xd9]);
    assert_eq!(encode_jpeg(&pixels, 5, 3, 60), None);
}
