use file_archiver::digest::calculate_md5;

#[test]
fn test_calculate_md5_empty_file() {
    let expected_md5 = "d41d8cd98f00b204e9800998ecf8427e";

    let actual_md5 = calculate_md5(&Vec::new());
    assert_eq!(actual_md5, expected_md5);
}

#[test]
fn test_calculate_md5_simple_content() {
    let expected_md5 = "5eb63bbbe01eeed093cb22bb8f5acdc3";
    let actual_md5 = calculate_md5(&b"hello world".to_vec());

    assert_eq!(actual_md5, expected_md5);
}

#[test]
fn test_calculate_md5_binary_content() {
    let expected_md5 = "37b59afd592725f9305e484a5d7f5168";
    let actual_md5 = calculate_md5(&vec![0x00, 0x01, 0x02, 0x03]);

    assert_eq!(actual_md5, expected_md5);
}

#[test]
fn test_md5_consistency() {
    let md5_1 = calculate_md5(&b"same content".to_vec());
    let md5_2 = calculate_md5(&b"same content".to_vec());

    assert_eq!(md5_1, md5_2);
}

#[test]
fn test_md5_different_for_different_content() {
    let md5_1 = calculate_md5(&b"content1".to_vec());
    let md5_2 = calculate_md5(&b"content2".to_vec());

    assert_ne!(md5_1, md5_2);
}
